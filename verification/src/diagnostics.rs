//! Lenient helpers around values that may stand for a failure: they hand the
//! value back unchanged, together with the notice that is to be logged.

use vstd::prelude::*;
use vstd::string::*;
use std::fmt::Debug;

verus! {

/// How a notice is to be logged.
#[derive(Clone, Copy, Debug, PartialEq, Eq, Structural)]
pub enum Level {
    Error,
    Info,
    Debug,
}

/// One line for the log.
#[derive(Debug, PartialEq, Eq)]
pub struct Notice {
    pub level: Level,
    pub text: String,
}

/// The text of an error notice without a message of the caller's.
pub open spec fn failure_heading() -> Seq<char> {
    "failure: "@
}

/// The text of the notice for a value that is missing.
pub open spec fn empty_text() -> Seq<char> {
    "empty option"@
}

/// What stands between a message and the rendering of a value.
pub open spec fn message_separator() -> Seq<char> {
    ": "@
}

/// `format!` with `{:?}`: the debug rendering of a value. Nothing is stated
/// of it.
#[verifier::external_body]
fn debug_text<E: Debug>(e: &E) -> (r: String) {
    format!("{:?}", e)
}

/// A notice of the given level and text.
fn notice(level: Level, text: String) -> (n: Notice)
    ensures
        n.level == level,
        n.text@ == text@,
{
    Notice { level, text }
}

/// A value that may stand for a failure, and the notices it asks for.
pub trait Hope: Sized {
    /// Whether the value stands for a failure.
    spec fn lost(&self) -> bool;

    /// An error notice where the value stands for a failure.
    fn hope(self) -> (n: Option<Notice>)
        ensures
            n is Some <==> self.lost(),
            n matches Some(m) ==> m.level == Level::Error,
    ;

    /// The value, and an error notice where it stands for a failure.
    fn complain(self) -> (r: (Self, Option<Notice>))
        ensures
            r.0 == self,
            r.1 is Some <==> self.lost(),
            r.1 matches Some(m) ==> m.level == Level::Error,
    ;

    /// The value, and an error notice that starts with `msg` where the
    /// value stands for a failure.
    fn complain_msg(self, msg: &str) -> (r: (Self, Option<Notice>))
        ensures
            r.0 == self,
            r.1 is Some <==> self.lost(),
            r.1 matches Some(m) ==> m.level == Level::Error && msg@.is_prefix_of(m.text@),
    ;

    /// The value, and the notice `msg` where it stands for no failure.
    fn relief_msg(self, msg: &str) -> (r: (Self, Option<Notice>))
        ensures
            r.0 == self,
            r.1 is Some <==> !self.lost(),
            r.1 matches Some(m) ==> m.level == Level::Info && m.text@ == msg@,
    ;
}

impl<T, E: Debug> Hope for Result<T, E> {
    open spec fn lost(&self) -> bool {
        self is Err
    }

    fn hope(self) -> (n: Option<Notice>)
        ensures
            n matches Some(m) ==> failure_heading().is_prefix_of(m.text@),
    {
        match self {
            Ok(_) => None,
            Err(e) => Some(
                notice(
                    Level::Error,
                    String::from_str("failure: ").concat(debug_text(&e).as_str()),
                ),
            ),
        }
    }

    fn complain(self) -> (r: (Self, Option<Notice>))
        ensures
            r.1 matches Some(m) ==> failure_heading().is_prefix_of(m.text@),
    {
        match self {
            Ok(x) => (Ok(x), None),
            Err(e) => {
                let text = String::from_str("failure: ").concat(debug_text(&e).as_str());
                (Err(e), Some(notice(Level::Error, text)))
            },
        }
    }

    fn complain_msg(self, msg: &str) -> (r: (Self, Option<Notice>))
        ensures
            r.1 matches Some(m) ==> (msg@ + message_separator()).is_prefix_of(m.text@),
    {
        match self {
            Err(e) => {
                let text = String::from_str(msg).concat(": ").concat(debug_text(&e).as_str());
                (Err(e), Some(notice(Level::Error, text)))
            },
            Ok(x) => (Ok(x), None),
        }
    }

    fn relief_msg(self, msg: &str) -> (r: (Self, Option<Notice>)) {
        match self {
            Err(e) => (Err(e), None),
            Ok(x) => (Ok(x), Some(notice(Level::Info, String::from_str(msg)))),
        }
    }
}

impl<T> Hope for Option<T> {
    open spec fn lost(&self) -> bool {
        self is None
    }

    fn hope(self) -> (n: Option<Notice>)
        ensures
            n matches Some(m) ==> m.text@ == empty_text(),
    {
        match self {
            Some(_) => None,
            None => Some(notice(Level::Error, String::from_str("empty option"))),
        }
    }

    fn complain(self) -> (r: (Self, Option<Notice>))
        ensures
            r.1 matches Some(m) ==> m.text@ == empty_text(),
    {
        match self {
            None => (None, Some(notice(Level::Error, String::from_str("empty option")))),
            Some(x) => (Some(x), None),
        }
    }

    fn complain_msg(self, msg: &str) -> (r: (Self, Option<Notice>))
        ensures
            r.1 matches Some(m) ==> m.text@ == msg@,
    {
        match self {
            Some(x) => (Some(x), None),
            None => (None, Some(notice(Level::Error, String::from_str(msg)))),
        }
    }

    fn relief_msg(self, msg: &str) -> (r: (Self, Option<Notice>)) {
        match self {
            Some(x) => (Some(x), Some(notice(Level::Info, String::from_str(msg)))),
            None => (None, None),
        }
    }
}

impl Hope for bool {
    open spec fn lost(&self) -> bool {
        !*self
    }

    fn hope(self) -> (n: Option<Notice>)
        ensures
            n matches Some(m) ==> m.text@ == empty_text(),
    {
        if self {
            None
        } else {
            Some(notice(Level::Error, String::from_str("empty option")))
        }
    }

    fn complain(self) -> (r: (Self, Option<Notice>))
        ensures
            r.1 matches Some(m) ==> m.text@ == empty_text(),
    {
        if self {
            (true, None)
        } else {
            (false, Some(notice(Level::Error, String::from_str("empty option"))))
        }
    }

    fn complain_msg(self, msg: &str) -> (r: (Self, Option<Notice>))
        ensures
            r.1 matches Some(m) ==> m.text@ == msg@,
    {
        if self {
            (true, None)
        } else {
            (false, Some(notice(Level::Error, String::from_str(msg))))
        }
    }

    fn relief_msg(self, msg: &str) -> (r: (Self, Option<Notice>)) {
        if self {
            (true, Some(notice(Level::Info, String::from_str(msg))))
        } else {
            (false, None)
        }
    }
}

/// A value that can be reported to the log.
pub trait Report: Sized {
    /// The value, and a debug notice of `msg`, a colon and the rendering of
    /// the value.
    fn report_msg(self, msg: &str) -> (r: (Self, Notice))
        ensures
            r.0 == self,
            r.1.level == Level::Debug,
            (msg@ + message_separator()).is_prefix_of(r.1.text@),
    ;
}

impl<T: Debug> Report for T {
    fn report_msg(self, msg: &str) -> (r: (Self, Notice)) {
        let text = String::from_str(msg).concat(": ").concat(debug_text(&self).as_str());
        (self, notice(Level::Debug, text))
    }
}

} // verus!
