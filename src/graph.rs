use vstd::prelude::*;

verus! {

/// A node value: an integer or a text.
#[derive(Debug, PartialEq, Eq)]
pub enum Value {
    Int(u64),
    Text(Vec<char>),
}

/// What a value means, with texts as sequences of characters.
pub enum ValueModel {
    Int(u64),
    Text(Seq<char>),
}

impl View for Value {
    type V = ValueModel;

    open spec fn view(&self) -> ValueModel {
        match self {
            Value::Int(n) => ValueModel::Int(*n),
            Value::Text(t) => ValueModel::Text(t@),
        }
    }
}

/// The computation behind a selector, over other nodes of the graph: atoms or
/// selectors. A formula reads only nodes created before its own selector, so the
/// graph has no cycles.
pub enum Formula {
    /// The value of the node `source`.
    Copy { source: usize },
    /// `prefix`, then the node `source` shown as text, then `suffix`.
    Template { prefix: Vec<char>, source: usize, suffix: Vec<char> },
    /// The nodes `sources` shown as text, one after another.
    Concat { sources: Vec<usize> },
}

/// One slot of the node arena.
pub enum Node {
    /// Allocated, key handed out, nothing installed yet.
    Reserved,
    /// A settable leaf.
    Atom { value: Value },
    /// An atom whose value is checked out.
    Held,
    /// A derived node, recomputed on every read.
    Selector { formula: Formula },
    /// Taken out of the arena; the key is never reused.
    Removed,
}

/// Why an atom could not be written or checked out, or a reference taken.
#[derive(PartialEq, Eq, Structural, Clone, Copy, Debug)]
pub enum GraphError {
    /// The atom is checked out.
    Reentrant,
    /// No node of the right kind is installed under the key.
    Missing,
    /// The reference count is at its largest value.
    TooManyReferences,
}

/// The character of a decimal digit.
pub open spec fn digit_char(d: nat) -> char {
    if d == 0 {
        '0'
    } else if d == 1 {
        '1'
    } else if d == 2 {
        '2'
    } else if d == 3 {
        '3'
    } else if d == 4 {
        '4'
    } else if d == 5 {
        '5'
    } else if d == 6 {
        '6'
    } else if d == 7 {
        '7'
    } else if d == 8 {
        '8'
    } else {
        '9'
    }
}

/// `n` in decimal, most significant digit first, without leading zeros.
pub open spec fn decimal(n: nat) -> Seq<char>
    decreases n,
{
    if n < 10 {
        seq![digit_char(n)]
    } else {
        decimal(n / 10).push(digit_char(n % 10))
    }
}

/// A value shown as text.
pub open spec fn shown(v: ValueModel) -> Seq<char> {
    match v {
        ValueModel::Int(n) => decimal(n as nat),
        ValueModel::Text(t) => t,
    }
}

/// Whether the atom under `key` is checked out.
pub open spec fn is_held(nodes: Seq<Node>, key: usize) -> bool {
    key < nodes.len() && nodes[key as int] is Held
}

/// The value of the node under `key`, computed afresh: an atom's own value, or a
/// selector's formula over the current values of the nodes it reads. `None`
/// where the node, or a node it reads, is missing, checked out, or not created
/// before the selector that reads it.
pub open spec fn value_at(nodes: Seq<Node>, key: int) -> Option<ValueModel>
    decreases key, 1nat, 0nat,
{
    if 0 <= key < nodes.len() {
        match nodes[key] {
            Node::Atom { value } => Some(value@),
            Node::Selector { formula } => match formula {
                Formula::Copy { source } => if source < key {
                    value_at(nodes, source as int)
                } else {
                    None
                },
                Formula::Template { prefix, source, suffix } => if source < key {
                    match value_at(nodes, source as int) {
                        Some(v) => Some(ValueModel::Text(prefix@ + shown(v) + suffix@)),
                        None => None,
                    }
                } else {
                    None
                },
                Formula::Concat { sources } => match joined(nodes, key, sources@, sources@.len() as int) {
                    Some(t) => Some(ValueModel::Text(t)),
                    None => None,
                },
            },
            _ => None,
        }
    } else {
        None
    }
}

/// The first `n` nodes of `srcs` shown as text, one after another, where each
/// comes before `key` and has a value.
pub open spec fn joined(nodes: Seq<Node>, key: int, srcs: Seq<usize>, n: int) -> Option<Seq<char>>
    decreases key, 0nat, n,
{
    if n <= 0 || n > srcs.len() {
        Some(Seq::empty())
    } else if srcs[n - 1] < key {
        match (joined(nodes, key, srcs, n - 1), value_at(nodes, srcs[n - 1] as int)) {
            (Some(t), Some(v)) => Some(t + shown(v)),
            _ => None,
        }
    } else {
        None
    }
}

/// Once a prefix of the sources has no joined text, no longer prefix has one.
proof fn lemma_joined_stays_none(nodes: Seq<Node>, key: int, srcs: Seq<usize>, n: int, m: int)
    requires
        0 < n <= m <= srcs.len(),
        joined(nodes, key, srcs, n) is None,
    ensures
        joined(nodes, key, srcs, m) is None,
    decreases m,
{
    if m > n {
        lemma_joined_stays_none(nodes, key, srcs, n, m - 1);
    }
}

/// Appends `n` in decimal.
fn push_decimal(n: u64, out: &mut Vec<char>)
    ensures
        final(out)@ == old(out)@ + decimal(n as nat),
    decreases n,
{
    if n >= 10 {
        push_decimal(n / 10, out);
    }
    let d = n % 10;
    let c = if d == 0 {
        '0'
    } else if d == 1 {
        '1'
    } else if d == 2 {
        '2'
    } else if d == 3 {
        '3'
    } else if d == 4 {
        '4'
    } else if d == 5 {
        '5'
    } else if d == 6 {
        '6'
    } else if d == 7 {
        '7'
    } else if d == 8 {
        '8'
    } else {
        '9'
    };
    out.push(c);
    proof {
        if n < 10 {
            assert(final(out)@ =~= old(out)@ + decimal(n as nat));
        } else {
            assert(final(out)@ =~= old(out)@ + decimal(n as nat));
        }
    }
}

/// Appends the characters of `s`.
fn push_chars(s: &Vec<char>, out: &mut Vec<char>)
    ensures
        final(out)@ == old(out)@ + s@,
{
    let mut i: usize = 0;
    while i < s.len()
        invariant
            0 <= i <= s@.len(),
            out@ == old(out)@ + s@.subrange(0, i as int),
        decreases s@.len() - i,
    {
        out.push(s[i]);
        i = i + 1;
        proof {
            assert(out@ =~= old(out)@ + s@.subrange(0, i as int));
        }
    }
    proof {
        assert(s@.subrange(0, i as int) =~= s@);
    }
}

impl Value {
    /// A copy of the value.
    pub fn duplicate(&self) -> (r: Value)
        ensures
            r@ == self@,
    {
        match self {
            Value::Int(n) => Value::Int(*n),
            Value::Text(t) => {
                let mut out: Vec<char> = Vec::new();
                push_chars(t, &mut out);
                proof {
                    assert(out@ =~= t@);
                }
                Value::Text(out)
            },
        }
    }

    /// The value shown as text.
    pub fn show(&self) -> (r: Vec<char>)
        ensures
            r@ == shown(self@),
    {
        let mut out: Vec<char> = Vec::new();
        match self {
            Value::Int(n) => push_decimal(*n, &mut out),
            Value::Text(t) => push_chars(t, &mut out),
        }
        proof {
            assert(out@ =~= shown(self@));
        }
        out
    }
}

/// The arena of graph nodes, with a reference count per key. Keys are never
/// reused.
pub struct SelectorImMap {
    nodes: Vec<Node>,
    refs: Vec<u64>,
}

impl SelectorImMap {
    pub closed spec fn nodes(&self) -> Seq<Node> {
        self.nodes@
    }

    pub closed spec fn refs(&self) -> Seq<u64> {
        self.refs@
    }

    pub open spec fn wf(&self) -> bool {
        self.nodes().len() == self.refs().len()
    }

    pub fn new() -> (r: Self)
        ensures
            r.wf(),
            r.nodes() == Seq::<Node>::empty(),
    {
        SelectorImMap { nodes: Vec::new(), refs: Vec::new() }
    }

    /// Allocates a key, with one reference and no node yet.
    pub fn reserve(&mut self) -> (key: usize)
        requires
            old(self).wf(),
            old(self).nodes().len() < usize::MAX,
        ensures
            final(self).wf(),
            key == old(self).nodes().len(),
            final(self).nodes() == old(self).nodes().push(Node::Reserved),
            final(self).refs() == old(self).refs().push(1),
    {
        let key = self.nodes.len();
        self.nodes.push(Node::Reserved);
        self.refs.push(1);
        key
    }

    /// Installs the node of a reserved key.
    pub fn insert(&mut self, key: usize, node: Node)
        requires
            old(self).wf(),
            key < old(self).nodes().len(),
            old(self).nodes()[key as int] is Reserved,
        ensures
            final(self).wf(),
            final(self).nodes() == old(self).nodes().update(key as int, node),
            final(self).refs() == old(self).refs(),
    {
        self.nodes.set(key, node);
    }

    /// Whether an atom or a selector is installed and not checked out under `key`.
    pub fn lookup(&self, key: usize) -> (b: bool)
        ensures
            b == (key < self.nodes().len() && (self.nodes()[key as int] is Atom
                || self.nodes()[key as int] is Selector)),
    {
        key < self.nodes.len() && (matches!(self.nodes[key], Node::Atom { .. }) || matches!(
            self.nodes[key],
            Node::Selector { .. }
        ))
    }

    /// The reference count of a key, zero where there is no such key.
    pub fn ref_count(&self, key: usize) -> (r: u64)
        requires
            self.wf(),
        ensures
            r == if key < self.refs().len() { self.refs()[key as int] } else { 0 },
    {
        if key < self.refs.len() {
            self.refs[key]
        } else {
            0
        }
    }

    /// One more reference to a node that is not removed.
    pub fn retain(&mut self, key: usize) -> (r: Result<(), GraphError>)
        requires
            old(self).wf(),
        ensures
            final(self).wf(),
            final(self).nodes() == old(self).nodes(),
            match r {
                Ok(()) => final(self).refs() == old(self).refs().update(key as int, (old(self).refs()[key as int] + 1) as u64),
                Err(_) => final(self).refs() == old(self).refs(),
            },
            r == if key >= old(self).nodes().len() || old(self).nodes()[key as int] is Removed {
                Err::<(), GraphError>(GraphError::Missing)
            } else if old(self).refs()[key as int] == u64::MAX {
                Err(GraphError::TooManyReferences)
            } else {
                Ok(())
            },
    {
        if key >= self.nodes.len() || matches!(self.nodes[key], Node::Removed) {
            return Err(GraphError::Missing);
        }
        let n = self.refs[key];
        if n == u64::MAX {
            return Err(GraphError::TooManyReferences);
        }
        self.refs.set(key, n + 1);
        Ok(())
    }

    /// One reference fewer; a count of zero stays zero.
    pub fn release(&mut self, key: usize)
        requires
            old(self).wf(),
        ensures
            final(self).wf(),
            final(self).nodes() == old(self).nodes(),
            final(self).refs() == if key < old(self).refs().len() && old(self).refs()[key as int] > 0 {
                old(self).refs().update(key as int, (old(self).refs()[key as int] - 1) as u64)
            } else {
                old(self).refs()
            },
    {
        if key < self.refs.len() {
            let n = self.refs[key];
            if n > 0 {
                self.refs.set(key, n - 1);
            }
        }
    }

    /// Takes a node out of the arena. Only an installed node that is not checked
    /// out and that nothing refers to any more may be removed.
    pub fn remove(&mut self, key: usize)
        requires
            old(self).wf(),
            key < old(self).nodes().len(),
            old(self).nodes()[key as int] is Atom || old(self).nodes()[key as int] is Selector,
            old(self).refs()[key as int] == 0,
        ensures
            final(self).wf(),
            final(self).refs() == old(self).refs(),
            final(self).nodes() == old(self).nodes().update(key as int, Node::Removed),
    {
        self.nodes.set(key, Node::Removed);
    }

    /// A copy of an atom's value. The atom must be installed and not checked out.
    pub fn read(&self, key: usize) -> (r: Value)
        requires
            key < self.nodes().len(),
            self.nodes()[key as int] is Atom,
        ensures
            r@ == self.nodes()[key as int]->value@,
    {
        match &self.nodes[key] {
            Node::Atom { value } => value.duplicate(),
            _ => {
                proof {
                    assert(false);
                }
                Value::Int(0)
            },
        }
    }

    /// The value of a node, computed afresh, where it has one.
    pub fn try_read(&self, key: usize) -> (r: Option<Value>)
        ensures
            match r {
                Some(v) => value_at(self.nodes(), key as int) == Some(v@),
                None => value_at(self.nodes(), key as int) is None,
            },
        decreases key,
    {
        if key >= self.nodes.len() {
            return None;
        }
        match &self.nodes[key] {
            Node::Atom { value } => Some(value.duplicate()),
            Node::Selector { formula } => match formula {
                Formula::Copy { source } => {
                    if *source >= key {
                        return None;
                    }
                    self.try_read(*source)
                },
                Formula::Template { prefix, source, suffix } => {
                    if *source >= key {
                        return None;
                    }
                    match self.try_read(*source) {
                        Some(v) => {
                            let mut out: Vec<char> = Vec::new();
                            push_chars(prefix, &mut out);
                            let shown_v = v.show();
                            push_chars(&shown_v, &mut out);
                            push_chars(suffix, &mut out);
                            proof {
                                assert(out@ =~= prefix@ + shown(v@) + suffix@);
                            }
                            Some(Value::Text(out))
                        },
                        None => None,
                    }
                },
                Formula::Concat { sources } => {
                    let mut out: Vec<char> = Vec::new();
                    let mut i: usize = 0;
                    while i < sources.len()
                        invariant
                            0 <= i <= sources@.len(),
                            key < self.nodes().len(),
                            self.nodes()[key as int] == (Node::Selector { formula: Formula::Concat { sources: *sources } }),
                            joined(self.nodes(), key as int, sources@, i as int) == Some(out@),
                        decreases sources@.len() - i,
                    {
                        let s = sources[i];
                        if s >= key {
                            proof {
                                lemma_joined_stays_none(self.nodes(), key as int, sources@, i + 1, sources@.len() as int);
                            }
                            return None;
                        }
                        match self.try_read(s) {
                            Some(v) => {
                                let shown_v = v.show();
                                push_chars(&shown_v, &mut out);
                            },
                            None => {
                                proof {
                                    lemma_joined_stays_none(self.nodes(), key as int, sources@, i + 1, sources@.len() as int);
                                }
                                return None;
                            },
                        }
                        i = i + 1;
                    }
                    Some(Value::Text(out))
                },
            },
            _ => None,
        }
    }

    /// Computes a node afresh: a selector's formula over the current values of the
    /// nodes it reads. The node must have a value: nothing it reads may be
    /// missing or checked out.
    pub fn compute(&self, key: usize) -> (r: Value)
        requires
            value_at(self.nodes(), key as int) is Some,
        ensures
            value_at(self.nodes(), key as int) == Some(r@),
    {
        match self.try_read(key) {
            Some(v) => v,
            None => {
                proof {
                    assert(false);
                }
                Value::Int(0)
            },
        }
    }

    /// Replaces an atom's value. The atom must be installed and not checked out.
    pub fn write(&mut self, key: usize, value: Value)
        requires
            old(self).wf(),
            key < old(self).nodes().len(),
            old(self).nodes()[key as int] is Atom,
        ensures
            final(self).wf(),
            final(self).refs() == old(self).refs(),
            final(self).nodes() == old(self).nodes().update(key as int, Node::Atom { value }),
    {
        self.nodes.set(key, Node::Atom { value });
    }

    /// Checks an atom's value out for an update. The atom must be installed and
    /// not already checked out: a second lease is a contract violation
    /// (`try_lease` reports it instead).
    pub fn lease(&mut self, key: usize) -> (r: Value)
        requires
            old(self).wf(),
            key < old(self).nodes().len(),
            old(self).nodes()[key as int] is Atom,
        ensures
            final(self).wf(),
            final(self).refs() == old(self).refs(),
            old(self).nodes()[key as int] == (Node::Atom { value: r }),
            final(self).nodes() == old(self).nodes().update(key as int, Node::Held),
    {
        let mut taken = Node::Held;
        std::mem::swap(&mut self.nodes[key], &mut taken);
        match taken {
            Node::Atom { value } => value,
            _ => vstd::pervasive::unreached(),
        }
    }

    /// Checks an atom's value out where that is allowed: an atom already checked
    /// out fails with `Reentrant`, a key without an atom with `Missing`, and a
    /// failure changes nothing.
    pub fn try_lease(&mut self, key: usize) -> (r: Result<Value, GraphError>)
        requires
            old(self).wf(),
        ensures
            final(self).wf(),
            final(self).refs() == old(self).refs(),
            match r {
                Ok(v) => old(self).nodes()[key as int] == (Node::Atom { value: v })
                    && key < old(self).nodes().len()
                    && final(self).nodes() == old(self).nodes().update(key as int, Node::Held),
                Err(e) => final(self).nodes() == old(self).nodes() && e == if is_held(old(self).nodes(), key) {
                    GraphError::Reentrant
                } else {
                    GraphError::Missing
                },
            },
            r is Ok <==> (key < old(self).nodes().len() && old(self).nodes()[key as int] is Atom),
    {
        if key >= self.nodes.len() {
            return Err(GraphError::Missing);
        }
        if matches!(self.nodes[key], Node::Held) {
            return Err(GraphError::Reentrant);
        }
        if !matches!(self.nodes[key], Node::Atom { .. }) {
            return Err(GraphError::Missing);
        }
        Ok(self.lease(key))
    }

    /// Puts a checked-out atom value back.
    pub fn end_lease(&mut self, key: usize, value: Value)
        requires
            old(self).wf(),
            is_held(old(self).nodes(), key),
        ensures
            final(self).wf(),
            final(self).refs() == old(self).refs(),
            final(self).nodes() == old(self).nodes().update(key as int, Node::Atom { value }),
    {
        self.nodes.set(key, Node::Atom { value });
    }
}


/// A handle to an atom of the graph.
pub struct Atom {
    key: usize,
}

/// A handle to a selector of the graph.
pub struct Selector {
    key: usize,
}

impl View for Atom {
    type V = usize;

    closed spec fn view(&self) -> usize {
        self.key
    }
}

impl View for Selector {
    type V = usize;

    closed spec fn view(&self) -> usize {
        self.key
    }
}

impl Atom {
    pub(crate) fn new(key: usize) -> (r: Self)
        ensures
            r@ == key,
    {
        Atom { key }
    }

    pub fn key(&self) -> (r: usize)
        ensures
            r == self@,
    {
        self.key
    }
}

impl Selector {
    pub(crate) fn new(key: usize) -> (r: Self)
        ensures
            r@ == key,
    {
        Selector { key }
    }

    pub fn key(&self) -> (r: usize)
        ensures
            r == self@,
    {
        self.key
    }
}

} // verus!
