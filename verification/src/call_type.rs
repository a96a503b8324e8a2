//! The spellings by which an argument is invoked.

use vstd::prelude::*;
use vstd::std_specs::cmp::PartialEqSpecImpl;
use vstd::std_specs::convert::FromSpecImpl;

verus! {

/// One way of calling an argument: a short, single-character call such as
/// `-h`, or a long call such as `--hello`.
#[derive(Debug)]
pub enum CallType {
    /// Short, single-char call, e.g. `-h`
    Short(char),
    /// Long, multi-char call, e.g. `--hello`
    Long(String),
}

/// The mathematical value of a [`CallType`].
pub enum CallView {
    Short(char),
    Long(Seq<char>),
}

impl CallView {
    /// The short call spelled by `c`.
    pub open spec fn short(c: char) -> CallView {
        CallView::Short(c)
    }

    /// The call without any leading hyphen: the character of a short call, the
    /// name of a long one.
    pub open spec fn text(self) -> Seq<char> {
        match self {
            CallView::Short(c) => seq![c],
            CallView::Long(name) => name,
        }
    }

    /// The call as a user types it: `-x` for a short call, `--xyz` for a long
    /// one.
    pub open spec fn spelling(self) -> Seq<char> {
        match self {
            CallView::Short(c) => seq!['-', c],
            CallView::Long(name) => seq!['-', '-'] + name,
        }
    }
}

impl View for CallType {
    type V = CallView;

    open spec fn view(&self) -> CallView {
        match self {
            CallType::Short(c) => CallView::Short(*c),
            CallType::Long(name) => CallView::Long(name@),
        }
    }
}

impl Clone for CallType {
    fn clone(&self) -> (r: CallType)
        ensures
            r@ == self@,
    {
        match self {
            CallType::Short(c) => CallType::Short(*c),
            CallType::Long(name) => CallType::Long(name.clone()),
        }
    }
}

impl PartialEq for CallType {
    /// Two calls are the same call when they are of the same kind and spell
    /// the same text.
    fn eq(&self, other: &CallType) -> (r: bool) {
        match (self, other) {
            (CallType::Short(a), CallType::Short(b)) => *a == *b,
            (CallType::Long(a), CallType::Long(b)) => a.eq(b),
            _ => false,
        }
    }
}

impl PartialEqSpecImpl for CallType {
    open spec fn obeys_eq_spec() -> bool {
        true
    }

    open spec fn eq_spec(&self, other: &CallType) -> bool {
        self@ == other@
    }
}

impl CallType {
    /// The call as a user types it.
    pub fn spelling(&self) -> (s: String)
        ensures
            s@ == self@.spelling(),
    {
        let mut s = String::new();
        s.push('-');
        match self {
            CallType::Short(c) => {
                s.push(*c);
            },
            CallType::Long(name) => {
                s.push('-');
                s.append(name.as_str());
            },
        }
        s
    }
}

impl FromSpecImpl<CallType> for String {
    open spec fn obeys_from_spec() -> bool {
        false
    }

    open spec fn from_spec(v: CallType) -> String {
        arbitrary()
    }
}

impl From<CallType> for String {
    /// The text of the call, without hyphens.
    fn from(calltype: CallType) -> (r: String)
        ensures
            r@ == calltype@.text(),
    {
        match calltype {
            CallType::Short(c) => {
                let mut s = String::new();
                s.push(c);
                s
            },
            CallType::Long(string) => string,
        }
    }
}

impl FromSpecImpl<char> for CallType {
    open spec fn obeys_from_spec() -> bool {
        true
    }

    open spec fn from_spec(c: char) -> CallType {
        CallType::Short(c)
    }
}

impl From<char> for CallType {
    fn from(c: char) -> (r: CallType) {
        CallType::Short(c)
    }
}

impl FromSpecImpl<String> for CallType {
    open spec fn obeys_from_spec() -> bool {
        true
    }

    open spec fn from_spec(string: String) -> CallType {
        CallType::Long(string)
    }
}

impl From<String> for CallType {
    fn from(string: String) -> (r: CallType) {
        CallType::Long(string)
    }
}

} // verus!
