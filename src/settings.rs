use vstd::prelude::*;

verus! {

/// The contents of a project's settings file.
#[derive(Debug)]
pub struct Inner {
    pub monitoring: Monitoring,
}

/// The monitoring section of a project's settings.
#[derive(Debug)]
pub struct Monitoring {
    /// Paths left out of monitoring, where any are set.
    pub exclude: Option<Vec<String>>,
}

/// The texts of a list of strings.
pub open spec fn texts(v: Seq<String>) -> Seq<Seq<char>> {
    v.map_values(|s: String| s@)
}

/// The entries of `xs` that `ys` does not hold, in order.
pub open spec fn not_in(xs: Seq<Seq<char>>, ys: Seq<Seq<char>>) -> Seq<Seq<char>>
    decreases xs.len(),
{
    if xs.len() == 0 {
        Seq::empty()
    } else {
        not_in(xs.drop_last(), ys) + if ys.contains(xs.last()) {
            Seq::<Seq<char>>::empty()
        } else {
            seq![xs.last()]
        }
    }
}

/// The current exclude list, empty where none is set.
pub open spec fn exclude_texts(m: Monitoring) -> Seq<Seq<char>> {
    match m.exclude {
        Some(v) => texts(v@),
        None => Seq::empty(),
    }
}

/// Whether `v` holds a string with the text `t`.
fn holds(v: &Vec<String>, t: &String) -> (b: bool)
    ensures
        b == texts(v@).contains(t@),
{
    let mut i: usize = 0;
    while i < v.len()
        invariant
            0 <= i <= v@.len(),
            forall|k: int| 0 <= k < i ==> v@[k]@ != t@,
        decreases v@.len() - i,
    {
        if v[i] == *t {
            assert(texts(v@)[i as int] == t@);
            return true;
        }
        i = i + 1;
    }
    proof {
        if texts(v@).contains(t@) {
            let k = choose|k: int| 0 <= k < texts(v@).len() && texts(v@)[k] == t@;
            assert(v@[k]@ == t@);
        }
    }
    false
}

/// The strings of `xs` whose text `ys` does not hold, in order.
fn strings_not_in(xs: &Vec<String>, ys: &Vec<String>) -> (r: Vec<String>)
    ensures
        texts(r@) == not_in(texts(xs@), texts(ys@)),
{
    let mut r: Vec<String> = Vec::new();
    let mut i: usize = 0;
    while i < xs.len()
        invariant
            0 <= i <= xs@.len(),
            texts(r@) == not_in(texts(xs@).subrange(0, i as int), texts(ys@)),
        decreases xs@.len() - i,
    {
        let ghost before = r@;
        let found = holds(ys, &xs[i]);
        if !found {
            r.push(xs[i].clone());
        }
        proof {
            let pre = texts(xs@).subrange(0, i as int);
            let cur = texts(xs@).subrange(0, i + 1);
            assert(cur.drop_last() =~= pre);
            assert(cur.last() == xs@[i as int]@);
            if found {
                assert(texts(r@) =~= texts(before));
                assert(not_in(cur, texts(ys@)) =~= not_in(pre, texts(ys@)));
            } else {
                assert(texts(r@) =~= texts(before).push(xs@[i as int]@));
                assert(not_in(cur, texts(ys@)) =~= not_in(pre, texts(ys@)).push(xs@[i as int]@));
            }
        }
        i = i + 1;
    }
    proof {
        assert(texts(xs@).subrange(0, i as int) =~= texts(xs@));
    }
    r
}

/// A copy of a list of strings.
fn copy_strings(xs: &Vec<String>) -> (r: Vec<String>)
    ensures
        r@ == xs@,
{
    let mut r: Vec<String> = Vec::new();
    let mut i: usize = 0;
    while i < xs.len()
        invariant
            0 <= i <= xs@.len(),
            r@ == xs@.subrange(0, i as int),
        decreases xs@.len() - i,
    {
        r.push(xs[i].clone());
        i = i + 1;
        proof {
            assert(r@ =~= xs@.subrange(0, i as int));
        }
    }
    proof {
        assert(r@ =~= xs@);
    }
    r
}

impl Monitoring {
    /// The exclude list with the paths of `items` that it does not hold yet
    /// added, and whether any was added. Nothing changes here: where one was
    /// added, the caller writes the list to the settings file and, once that
    /// succeeded, commits it with `commit_exclude_list`.
    pub fn append_to_monitoring_exclude_list(&self, items: &Vec<String>) -> (r: (Vec<String>, bool))
        ensures
            texts(r.0@) == exclude_texts(*self) + not_in(texts(items@), exclude_texts(*self)),
            r.1 == (not_in(texts(items@), exclude_texts(*self)).len() > 0),
    {
        let mut list = match &self.exclude {
            Some(v) => copy_strings(v),
            None => Vec::new(),
        };
        proof {
            assert(texts(list@) =~= exclude_texts(*self));
        }
        let mut new_items = strings_not_in(items, &list);
        let changed = new_items.len() > 0;
        let ghost before = list@;
        list.append(&mut new_items);
        proof {
            assert(texts(list@) =~= texts(before) + not_in(texts(items@), exclude_texts(*self)));
        }
        (list, changed)
    }

    /// The exclude list without the paths of `items`, and whether the list held
    /// anything, so that the result must be written back. Nothing changes here:
    /// the caller writes the list and, once that succeeded, commits it with
    /// `commit_exclude_list`.
    pub fn remove_from_monitoring_exclude_list(&self, items: &Vec<String>) -> (r: (Vec<String>, bool))
        ensures
            texts(r.0@) == not_in(exclude_texts(*self), texts(items@)),
            r.1 == (exclude_texts(*self).len() > 0),
    {
        let current = match &self.exclude {
            Some(v) => copy_strings(v),
            None => Vec::new(),
        };
        proof {
            assert(texts(current@) =~= exclude_texts(*self));
        }
        if current.len() == 0 {
            proof {
                assert(not_in(exclude_texts(*self), texts(items@)) =~= Seq::<Seq<char>>::empty());
            }
            return (Vec::new(), false);
        }
        (strings_not_in(&current, items), true)
    }

    /// Installs an exclude list, once it has been written.
    pub fn commit_exclude_list(&mut self, list: Vec<String>)
        ensures
            final(self).exclude == Some(list),
    {
        self.exclude = Some(list);
    }
}

} // verus!
