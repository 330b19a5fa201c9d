//! The command that lists the keys matching a pattern.

use vstd::prelude::*;

verus! {

/// Lists the names of the keys that match a pattern: `keys chin*` answers
/// with `chinese` and `china`.
#[derive(Debug)]
pub struct Keys {
    pattern: String,
}

impl Keys {
    /// The pattern of the command.
    pub closed spec fn spec_pattern(&self) -> Seq<char> {
        self.pattern@
    }

    /// The command for `pattern`.
    pub fn new(pattern: &str) -> (keys: Keys)
        ensures
            keys.spec_pattern() == pattern@,
    {
        Keys { pattern: pattern.to_owned() }
    }

    /// The pattern that keys are matched against.
    pub fn pattern(&self) -> (pattern: &str)
        ensures
            pattern@ == self.spec_pattern(),
    {
        self.pattern.as_str()
    }

    /// The words of the command as it goes over the wire: its name, then
    /// its pattern.
    pub fn into_frame(self) -> (words: Vec<String>)
        ensures
            words@.len() == 2,
            words@[0]@ == "keys"@,
            words@[1]@ == self.spec_pattern(),
    {
        let mut words: Vec<String> = Vec::new();
        words.push("keys".to_owned());
        words.push(self.pattern);
        words
    }
}

} // verus!
