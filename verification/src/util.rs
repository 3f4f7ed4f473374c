//! Errors that the API surfaces, and the text form of ids.

use vstd::prelude::*;

verus! {

/// Why the persistence collaborator could not do what was asked, in its own
/// words.
#[derive(Debug, PartialEq, Eq)]
pub struct DatabaseError {
    pub message: String,
}

/// What a request named that does not exist.
#[derive(Debug, Clone, Copy, PartialEq, Eq, Structural)]
pub enum Resource {
    Room,
    Queue,
}

/// Why a submitted reference was turned down.
#[derive(Debug, Clone, Copy, PartialEq, Eq, Structural)]
pub enum ParseError {
    /// No parser of the registry recognizes the reference.
    Unrecognized,
    /// The reference is recognized, but its lookup yields nothing to play.
    Unresolvable,
}

/// Why a request failed.
#[derive(Debug, PartialEq, Eq)]
pub enum ApiError {
    /// The request names a room or queue that does not exist.
    NotFound(Resource),
    /// The submitted reference was turned down.
    Parse(ParseError),
    /// The room could not be persisted.
    Database(DatabaseError),
    /// Every room id has been given out.
    Exhausted,
}

impl ApiError {
    /// The status that a response with this error carries: 404 where
    /// something was not found, 400 for a reference that was turned down,
    /// 500 for everything else.
    pub fn status_code(&self) -> (status: u16)
        ensures
            status == match self {
                ApiError::NotFound(_) => 404u16,
                ApiError::Parse(_) => 400u16,
                ApiError::Database(_) => 500u16,
                ApiError::Exhausted => 500u16,
            },
    {
        match self {
            ApiError::NotFound(_) => 404,
            ApiError::Parse(_) => 400,
            ApiError::Database(_) => 500,
            ApiError::Exhausted => 500,
        }
    }
}

impl Clone for DatabaseError {
    fn clone(&self) -> (r: Self)
        ensures
            r == *self,
    {
        DatabaseError { message: self.message.clone() }
    }
}

/// The character for a decimal digit.
pub open spec fn digit(d: nat) -> char {
    if d == 0 {
        '0'
    } else if d == 1 {
        '1'
    } else if d == 2 {
        '2'
    } else if d == 3 {
        '3'
    } else if d == 4 {
        '4'
    } else if d == 5 {
        '5'
    } else if d == 6 {
        '6'
    } else if d == 7 {
        '7'
    } else if d == 8 {
        '8'
    } else {
        '9'
    }
}

/// A number in decimal, without sign or leading zeros.
pub open spec fn decimal(n: nat) -> Seq<char>
    decreases n,
{
    if n < 10 {
        seq![digit(n)]
    } else {
        decimal(n / 10).push(digit(n % 10))
    }
}

/// Different numbers read differently.
pub proof fn lemma_decimal_injective(a: nat, b: nat)
    requires
        decimal(a) == decimal(b),
    ensures
        a == b,
    decreases a,
{
    lemma_decimal_len(a);
    lemma_decimal_len(b);
    if a < 10 {
        assert(decimal(a)[0] == digit(a));
        assert(decimal(b)[0] == digit(b));
        lemma_digit_injective(a, b);
    } else {
        let da = decimal(a / 10);
        let db = decimal(b / 10);
        assert(da.push(digit(a % 10)).drop_last() =~= da);
        assert(db.push(digit(b % 10)).drop_last() =~= db);
        assert(da.push(digit(a % 10)).last() == digit(a % 10));
        assert(db.push(digit(b % 10)).last() == digit(b % 10));
        lemma_decimal_injective(a / 10, b / 10);
        lemma_digit_injective(a % 10, b % 10);
    }
}

/// Different digits have different characters.
proof fn lemma_digit_injective(x: nat, y: nat)
    requires
        x < 10,
        y < 10,
        digit(x) == digit(y),
    ensures
        x == y,
{
}

/// A number has one digit where it is below ten, and more where it is not.
proof fn lemma_decimal_len(n: nat)
    ensures
        n < 10 ==> decimal(n).len() == 1,
        n >= 10 ==> decimal(n).len() >= 2,
    decreases n,
{
    if n >= 10 {
        lemma_decimal_len(n / 10);
    }
}

fn digit_char(d: u64) -> (c: char)
    requires
        d < 10,
    ensures
        c == digit(d as nat),
{
    if d == 0 {
        '0'
    } else if d == 1 {
        '1'
    } else if d == 2 {
        '2'
    } else if d == 3 {
        '3'
    } else if d == 4 {
        '4'
    } else if d == 5 {
        '5'
    } else if d == 6 {
        '6'
    } else if d == 7 {
        '7'
    } else if d == 8 {
        '8'
    } else {
        '9'
    }
}

/// The characters of `n` in decimal.
pub fn decimal_chars(n: u64) -> (text: Vec<char>)
    ensures
        text@ == decimal(n as nat),
    decreases n,
{
    if n < 10 {
        let mut text: Vec<char> = Vec::new();
        text.push(digit_char(n));
        proof {
            assert(text@ =~= seq![digit(n as nat)]);
        }
        text
    } else {
        let mut text = decimal_chars(n / 10);
        text.push(digit_char(n % 10));
        text
    }
}

} // verus!
