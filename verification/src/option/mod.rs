//! Matched options and the lookups over them.

pub mod option_pattern;

use crate::text::str_eq;
use vstd::prelude::*;
use vstd::std_specs::convert::FromSpec;

verus! {

/// Mathematical model of a matched [`Option`].
pub ghost enum OptionSpec {
    Standalone(Seq<char>),
    Argumented(Seq<char>, Seq<char>),
}

impl OptionSpec {
    /// The bare name, without the prefix character.
    pub open spec fn name(self) -> Seq<char> {
        match self {
            OptionSpec::Standalone(name) => name,
            OptionSpec::Argumented(name, _) => name,
        }
    }
}

/// The models of a list of matched options, in order.
pub open spec fn option_views(options: Seq<Option>) -> Seq<OptionSpec> {
    options.map_values(|o: Option| o@)
}

/// Whether `i` is the place of the first option called `name`.
pub open spec fn first_named(options: Seq<OptionSpec>, name: Seq<char>, i: int) -> bool {
    &&& 0 <= i < options.len()
    &&& options[i].name() == name
    &&& forall|j: int| 0 <= j < i ==> (#[trigger] options[j]).name() != name
}

/// Whether `i` is the place of the first argumented option called `name`.
pub open spec fn first_argumented(options: Seq<OptionSpec>, name: Seq<char>, i: int) -> bool {
    &&& 0 <= i < options.len()
    &&& options[i] is Argumented
    &&& options[i].name() == name
    &&& forall|j: int|
        0 <= j < i ==> !((#[trigger] options[j]) is Argumented && options[j].name() == name)
}

/// Value generated from matching against an `OptionPattern`.
#[derive(Debug, PartialEq, Eq)]
pub enum Option {
    /// A matched option that takes no argument, by its name.
    Standalone(&'static str),
    /// A matched option, by its name, with the value that followed it.
    Argumented(&'static str, String),
}

impl View for Option {
    type V = OptionSpec;

    open spec fn view(&self) -> OptionSpec {
        match self {
            Option::Standalone(name) => OptionSpec::Standalone(name@),
            Option::Argumented(name, value) => OptionSpec::Argumented(name@, value@),
        }
    }
}

impl Option {
    /// The option's bare name, without the prefix character.
    pub fn name(&self) -> (r: &str)
        ensures
            r@ == self@.name(),
    {
        match self {
            Option::Standalone(name) => name,
            Option::Argumented(name, _) => name,
        }
    }
}

/// The matched options of a command, in the order in which they were
/// matched. Names may repeat; the lookups answer by the first match.
pub struct Options {
    options: Vec<Option>,
}

impl View for Options {
    type V = Seq<OptionSpec>;

    closed spec fn view(&self) -> Seq<OptionSpec> {
        option_views(self.options@)
    }
}

impl Options {
    /// Collects matched options, keeping their order.
    pub fn new(options: Vec<Option>) -> (r: Options)
        ensures
            r@ == option_views(options@),
    {
        Options { options }
    }

    /// The first matched option called `name`, whatever its shape.
    pub fn get(&self, name: &str) -> (r: core::option::Option<&Option>)
        ensures
            r is None <==> forall|j: int| 0 <= j < self@.len() ==> self@[j].name() != name@,
            r is Some ==> exists|i: int|
                first_named(self@, name@, i) && (*r->0)@ == #[trigger] self@[i],
    {
        let mut i: usize = 0;
        while i < self.options.len()
            invariant
                i <= self.options.len(),
                forall|j: int| 0 <= j < i ==> (#[trigger] self@[j]).name() != name@,
            decreases self.options.len() - i,
        {
            if str_eq(self.options[i].name(), name) {
                assert(first_named(self@, name@, i as int));
                return Some(&self.options[i]);
            }
            i += 1;
        }
        None
    }

    /// Whether a standalone option called `name` was matched.
    pub fn get_standalone(&self, name: &str) -> (r: bool)
        ensures
            r == self@.contains(OptionSpec::Standalone(name@)),
    {
        let mut i: usize = 0;
        while i < self.options.len()
            invariant
                i <= self.options.len(),
                forall|j: int| 0 <= j < i ==> self@[j] != OptionSpec::Standalone(name@),
            decreases self.options.len() - i,
        {
            if let Option::Standalone(optname) = &self.options[i] {
                if str_eq(optname, name) {
                    assert(self@[i as int] == OptionSpec::Standalone(name@));
                    return true;
                }
            }
            i += 1;
        }
        false
    }

    /// The value of the first matched argumented option called `name`.
    /// Standalone options of that name are passed over.
    pub fn get_argumented(&self, name: &str) -> (r: core::option::Option<&str>)
        ensures
            r is None <==> forall|v: Seq<char>| !self@.contains(OptionSpec::Argumented(name@, v)),
            r is Some ==> exists|i: int|
                first_argumented(self@, name@, i) && #[trigger] self@[i]
                    == OptionSpec::Argumented(name@, r->0@),
    {
        let mut i: usize = 0;
        while i < self.options.len()
            invariant
                i <= self.options.len(),
                forall|j: int|
                    0 <= j < i ==> !((#[trigger] self@[j]) is Argumented && self@[j].name()
                        == name@),
            decreases self.options.len() - i,
        {
            if let Option::Argumented(optname, value) = &self.options[i] {
                if str_eq(optname, name) {
                    assert(first_argumented(self@, name@, i as int));
                    assert(self@.contains(OptionSpec::Argumented(name@, value@)));
                    return Some(value.as_str());
                }
            }
            i += 1;
        }
        assert forall|v: Seq<char>| !self@.contains(OptionSpec::Argumented(name@, v)) by {
            if self@.contains(OptionSpec::Argumented(name@, v)) {
                let k = choose|k: int|
                    0 <= k < self@.len() && self@[k] == OptionSpec::Argumented(name@, v);
                assert(self@[k] is Argumented);
            }
        }
        None
    }

    /// All matched options, in the order in which they were matched.
    pub fn values(&self) -> (r: &Vec<Option>)
        ensures
            option_views(r@) == self@,
    {
        &self.options
    }
}

impl From<Vec<Option>> for Options {
    fn from(value: Vec<Option>) -> (r: Options) {
        Options { options: value }
    }
}

/// What `Options::from` makes of a list of matched options.
pub proof fn lemma_from_spec_view(value: Vec<Option>)
    ensures
        Options::from_spec(value)@ == option_views(value@),
{
}

impl vstd::std_specs::convert::FromSpecImpl<Vec<Option>> for Options {
    open spec fn obeys_from_spec() -> bool {
        true
    }

    closed spec fn from_spec(value: Vec<Option>) -> Options {
        Options { options: value }
    }
}

} // verus!
