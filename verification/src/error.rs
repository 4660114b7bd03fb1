//! The errors that the store reports, with their codes and texts.

use vstd::prelude::*;
use vstd::string::*;

verus! {

/// Why an operation was refused.
#[derive(Debug, PartialEq, Eq)]
pub enum MetaError {
    /// No database has this name.
    UnknownDatabase(String),
    /// The database has no table of this name.
    UnknownTable(String),
    /// A database of this name exists already.
    AlreadyExists(String),
    /// The database has a table of this name already.
    TableAlreadyExists(String),
    /// The storage underneath failed; the text says how.
    StorageFatal(String),
    /// The request is malformed; the text says how.
    InvalidArgument(String),
}

/// A `MetaError` as contracts see it.
pub enum MetaErrorView {
    UnknownDatabase(Seq<char>),
    UnknownTable(Seq<char>),
    AlreadyExists(Seq<char>),
    TableAlreadyExists(Seq<char>),
    StorageFatal(Seq<char>),
    InvalidArgument(Seq<char>),
}

impl View for MetaError {
    type V = MetaErrorView;

    open spec fn view(&self) -> MetaErrorView {
        match self {
            MetaError::UnknownDatabase(s) => MetaErrorView::UnknownDatabase(s@),
            MetaError::UnknownTable(s) => MetaErrorView::UnknownTable(s@),
            MetaError::AlreadyExists(s) => MetaErrorView::AlreadyExists(s@),
            MetaError::TableAlreadyExists(s) => MetaErrorView::TableAlreadyExists(s@),
            MetaError::StorageFatal(s) => MetaErrorView::StorageFatal(s@),
            MetaError::InvalidArgument(s) => MetaErrorView::InvalidArgument(s@),
        }
    }
}

impl DeepView for MetaError {
    type V = MetaErrorView;

    open spec fn deep_view(&self) -> MetaErrorView {
        self@
    }
}

/// The decimal digit `d` as text.
pub open spec fn digit(d: u64) -> Seq<char> {
    if d == 0 {
        seq!['0']
    } else if d == 1 {
        seq!['1']
    } else if d == 2 {
        seq!['2']
    } else if d == 3 {
        seq!['3']
    } else if d == 4 {
        seq!['4']
    } else if d == 5 {
        seq!['5']
    } else if d == 6 {
        seq!['6']
    } else if d == 7 {
        seq!['7']
    } else if d == 8 {
        seq!['8']
    } else {
        seq!['9']
    }
}

/// The number `n` written in decimal, without leading zeros.
pub open spec fn decimal(n: u64) -> Seq<char>
    decreases n,
{
    if n < 10 {
        digit(n)
    } else {
        decimal(n / 10) + digit(n % 10)
    }
}

fn digit_str(d: u64) -> (s: &'static str)
    requires
        d < 10,
    ensures
        s@ == digit(d),
{
    proof {
        reveal_strlit("0");
        reveal_strlit("1");
        reveal_strlit("2");
        reveal_strlit("3");
        reveal_strlit("4");
        reveal_strlit("5");
        reveal_strlit("6");
        reveal_strlit("7");
        reveal_strlit("8");
        reveal_strlit("9");
    }
    let s = if d == 0 {
        "0"
    } else if d == 1 {
        "1"
    } else if d == 2 {
        "2"
    } else if d == 3 {
        "3"
    } else if d == 4 {
        "4"
    } else if d == 5 {
        "5"
    } else if d == 6 {
        "6"
    } else if d == 7 {
        "7"
    } else if d == 8 {
        "8"
    } else {
        "9"
    };
    assert(s@ =~= digit(d));
    s
}

/// Writes `n` in decimal.
pub fn decimal_string(n: u64) -> (s: String)
    ensures
        s@ == decimal(n),
    decreases n,
{
    if n < 10 {
        String::from_str(digit_str(n))
    } else {
        let mut s = decimal_string(n / 10);
        s.append(digit_str(n % 10));
        s
    }
}

impl MetaErrorView {
    /// The number by which clients tell the kinds of error apart.
    pub open spec fn code(self) -> u64 {
        match self {
            MetaErrorView::UnknownDatabase(_) => 3,
            MetaErrorView::UnknownTable(_) => 25,
            MetaErrorView::AlreadyExists(_) => 4001,
            MetaErrorView::TableAlreadyExists(_) => 4003,
            MetaErrorView::StorageFatal(_) => 2401,
            MetaErrorView::InvalidArgument(_) => 6,
        }
    }

    /// The text that says what went wrong.
    pub open spec fn message(self) -> Seq<char> {
        match self {
            MetaErrorView::UnknownDatabase(name) => name,
            MetaErrorView::UnknownTable(name) => "table not found: "@ + name,
            MetaErrorView::AlreadyExists(name) => name + " database exists"@,
            MetaErrorView::TableAlreadyExists(name) => "table exists: "@ + name,
            MetaErrorView::StorageFatal(text) => text,
            MetaErrorView::InvalidArgument(text) => text,
        }
    }

    /// The error as one line of text: its code, then its message.
    pub open spec fn display(self) -> Seq<char> {
        "Code: "@ + decimal(self.code()) + ", displayText = "@ + self.message() + "."@
    }
}

impl MetaError {
    /// The number by which clients tell the kinds of error apart.
    pub fn code(&self) -> (c: u64)
        ensures
            c == self@.code(),
    {
        match self {
            MetaError::UnknownDatabase(_) => 3,
            MetaError::UnknownTable(_) => 25,
            MetaError::AlreadyExists(_) => 4001,
            MetaError::TableAlreadyExists(_) => 4003,
            MetaError::StorageFatal(_) => 2401,
            MetaError::InvalidArgument(_) => 6,
        }
    }

    /// The text that says what went wrong.
    pub fn message(&self) -> (m: String)
        ensures
            m@ == self@.message(),
    {
        match self {
            MetaError::UnknownDatabase(name) => name.clone(),
            MetaError::UnknownTable(name) => String::from_str("table not found: ").concat(
                name.as_str(),
            ),
            MetaError::AlreadyExists(name) => name.clone().concat(" database exists"),
            MetaError::TableAlreadyExists(name) => String::from_str("table exists: ").concat(
                name.as_str(),
            ),
            MetaError::StorageFatal(text) => text.clone(),
            MetaError::InvalidArgument(text) => text.clone(),
        }
    }

    /// The error as one line of text: its code, then its message.
    pub fn to_string(&self) -> (s: String)
        ensures
            s@ == self@.display(),
    {
        let mut s = String::from_str("Code: ");
        s.append(decimal_string(self.code()).as_str());
        s.append(", displayText = ");
        s.append(self.message().as_str());
        s.append(".");
        s
    }
}

impl Clone for MetaError {
    fn clone(&self) -> (r: Self)
        ensures
            r@ == self@,
    {
        match self {
            MetaError::UnknownDatabase(s) => MetaError::UnknownDatabase(s.clone()),
            MetaError::UnknownTable(s) => MetaError::UnknownTable(s.clone()),
            MetaError::AlreadyExists(s) => MetaError::AlreadyExists(s.clone()),
            MetaError::TableAlreadyExists(s) => MetaError::TableAlreadyExists(s.clone()),
            MetaError::StorageFatal(s) => MetaError::StorageFatal(s.clone()),
            MetaError::InvalidArgument(s) => MetaError::InvalidArgument(s.clone()),
        }
    }
}

} // verus!
