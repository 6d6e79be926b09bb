use vstd::prelude::*;
use vstd::string::*;

verus! {

/// The level at which a configuration setting applies.
#[derive(Debug, Clone, Copy, PartialEq, Eq, Structural)]
pub enum ConfigurationScope {
    /// Applies across the whole platform.
    Platform,
    /// Applies to the whole machine.
    Machine,
    /// Applies to one window.
    Window,
    /// Applies to one resource, such as a file or a project.
    Resource,
}

impl Default for ConfigurationScope {
    fn default() -> (r: Self)
        ensures
            r == ConfigurationScope::Window,
    {
        ConfigurationScope::Window
    }
}

/// The type of a configuration setting's value.
#[derive(Debug, Clone, Copy, PartialEq, Eq, Structural)]
pub enum ConfigurationNodeType {
    Null,
    String,
    Bool,
    Number,
    Array,
    Object,
}

impl Default for ConfigurationNodeType {
    fn default() -> (r: Self)
        ensures
            r == ConfigurationNodeType::Null,
    {
        ConfigurationNodeType::Null
    }
}

impl ConfigurationNodeType {
    pub fn is_object(&self) -> (b: bool)
        ensures
            b == (*self == ConfigurationNodeType::Object),
    {
        match self {
            ConfigurationNodeType::Object => true,
            _ => false,
        }
    }
}

/// Where a group of configuration settings comes from.
#[derive(Debug, Clone)]
pub struct SourceInfo {
    pub id: String,
    pub display_name: Option<String>,
}

/// Whether `c` is one of the brackets around an override key.
pub open spec fn is_bracket(c: char) -> bool {
    c == '[' || c == ']'
}

/// `s.subrange(a, b)` is `s` without its leading and trailing brackets.
pub open spec fn trim_bounds(s: Seq<char>, a: int, b: int) -> bool {
    &&& 0 <= a <= b <= s.len()
    &&& forall|i: int| 0 <= i < a ==> is_bracket(#[trigger] s[i])
    &&& forall|i: int| b <= i < s.len() ==> is_bracket(#[trigger] s[i])
    &&& a < b ==> !is_bracket(s[a]) && !is_bracket(s[b - 1])
}

/// Reads the override sections of configuration files.
pub struct Parser;

impl Parser {
    pub fn new() -> (r: Self) {
        Parser
    }

    /// The identifier of an override section: its key without the surrounding
    /// brackets, after the parent's identifier and a `/` where there is a parent.
    pub fn format_identifier(parent_identifier: Option<&str>, key: &str) -> (r: String)
        ensures
            exists|a: int, b: int|
                trim_bounds(key@, a, b) && r@ == match parent_identifier {
                    Some(p) => p@ + seq!['/'] + key@.subrange(a, b),
                    None => key@.subrange(a, b),
                },
    {
        let n = key.unicode_len();
        let mut a: usize = 0;
        while a < n && (key.get_char(a) == '[' || key.get_char(a) == ']')
            invariant
                n == key@.len(),
                0 <= a <= n,
                forall|i: int| 0 <= i < a ==> is_bracket(#[trigger] key@[i]),
            decreases n - a,
        {
            a = a + 1;
        }
        let mut b: usize = n;
        while b > a && (key.get_char(b - 1) == '[' || key.get_char(b - 1) == ']')
            invariant
                n == key@.len(),
                0 <= a <= b <= n,
                forall|i: int| b <= i < n ==> is_bracket(#[trigger] key@[i]),
                a < n ==> !is_bracket(key@[a as int]),
            decreases b - a,
        {
            b = b - 1;
        }
        let trimmed = key.substring_char(a, b);
        proof {
            assert(trim_bounds(key@, a as int, b as int));
        }
        match parent_identifier {
            Some(p) => {
                let mut result = String::from_str(p);
                result.append("/");
                result.append(trimmed);
                proof {
                    reveal_strlit("/");
                    assert(result@ =~= p@ + seq!['/'] + key@.subrange(a as int, b as int));
                }
                result
            },
            None => String::from_str(trimmed),
        }
    }
}

} // verus!
