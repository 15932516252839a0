//! The tree form of one parsed message document, and the text form of its
//! keys and scalar leaves.
use vstd::prelude::*;
use vstd::string::*;

verus! {

/// A mapping key as the document parser hands it over.
#[derive(Debug)]
pub enum Key {
    Text(String),
    Int(i64),
    /// Any other key kind (boolean, float, sequence, ...).
    Unsupported,
}

/// One node of a parsed document: a mapping, or a scalar leaf.
#[derive(Debug)]
pub enum Node {
    /// Key/child pairs in document order.
    Mapping(Vec<(Key, Node)>),
    Text(String),
    Bool(bool),
    Int(i64),
    /// A leaf of any other kind (sequence, null, float, ...).
    Unsupported,
}

/// The decimal digit character for `d < 10`.
pub open spec fn digit_char(d: nat) -> char {
    if d == 0 { '0' } else if d == 1 { '1' } else if d == 2 { '2' } else if d == 3 { '3' }
    else if d == 4 { '4' } else if d == 5 { '5' } else if d == 6 { '6' } else if d == 7 { '7' }
    else if d == 8 { '8' } else { '9' }
}

/// Decimal digits of a natural number, most significant first, no leading zeros.
pub open spec fn digits(n: nat) -> Seq<char>
    decreases n,
{
    if n < 10 {
        seq![digit_char(n)]
    } else {
        digits(n / 10) + seq![digit_char(n % 10)]
    }
}

/// Decimal text of an integer, with a leading `-` when negative.
pub open spec fn decimal(n: int) -> Seq<char> {
    if n < 0 {
        seq!['-'] + digits((-n) as nat)
    } else {
        digits(n as nat)
    }
}

/// Text form of a mapping key; `None` for key kinds that are not supported.
pub open spec fn key_text(k: Key) -> Option<Seq<char>> {
    match k {
        Key::Text(s) => Some(s@),
        Key::Int(n) => Some(decimal(n as int)),
        Key::Unsupported => None,
    }
}

/// Text form of a scalar leaf: strings pass through, booleans and integers
/// are written out, every other kind becomes the empty text.
pub open spec fn scalar_text(n: Node) -> Seq<char> {
    match n {
        Node::Text(s) => s@,
        Node::Bool(b) => if b { "true"@ } else { "false"@ },
        Node::Int(i) => decimal(i as int),
        _ => Seq::empty(),
    }
}

fn digit_str(d: u64) -> (r: &'static str)
    requires
        d < 10,
    ensures
        r@ == seq![digit_char(d as nat)],
{
    proof {
        reveal_strlit("0");
        reveal_strlit("1");
        reveal_strlit("2");
        reveal_strlit("3");
        reveal_strlit("4");
        reveal_strlit("5");
        reveal_strlit("6");
        reveal_strlit("7");
        reveal_strlit("8");
        reveal_strlit("9");
    }
    if d == 0 { "0" } else if d == 1 { "1" } else if d == 2 { "2" } else if d == 3 { "3" }
    else if d == 4 { "4" } else if d == 5 { "5" } else if d == 6 { "6" } else if d == 7 { "7" }
    else if d == 8 { "8" } else { "9" }
}

fn digits_text(n: u64) -> (r: String)
    ensures
        r@ == digits(n as nat),
    decreases n,
{
    if n < 10 {
        let mut r = String::new();
        r.append(digit_str(n));
        r
    } else {
        let mut r = digits_text(n / 10);
        r.append(digit_str(n % 10));
        r
    }
}

/// Writes an integer in decimal.
pub fn decimal_text(n: i64) -> (r: String)
    ensures
        r@ == decimal(n as int),
{
    if n < 0 {
        let mag: u64 = (0i128 - n as i128) as u64;
        let mut r = String::new();
        proof {
            reveal_strlit("-");
        }
        r.append("-");
        let d = digits_text(mag);
        r.append(d.as_str());
        r
    } else {
        digits_text(n as u64)
    }
}

/// The text form of a key, or `None` where its kind is not supported.
pub fn key_to_text(k: &Key) -> (r: Option<String>)
    ensures
        match r {
            Some(s) => key_text(*k) == Some(s@),
            None => key_text(*k) is None,
        },
{
    match k {
        Key::Text(s) => Some(s.clone()),
        Key::Int(n) => Some(decimal_text(*n)),
        Key::Unsupported => None,
    }
}

/// The text form of a scalar leaf (a mapping yields the empty text).
pub fn scalar_to_text(n: &Node) -> (r: String)
    ensures
        r@ == scalar_text(*n),
{
    match n {
        Node::Text(s) => s.clone(),
        Node::Bool(b) => {
            proof {
                reveal_strlit("true");
                reveal_strlit("false");
            }
            if *b {
                String::from_str("true")
            } else {
                String::from_str("false")
            }
        },
        Node::Int(i) => decimal_text(*i),
        _ => String::new(),
    }
}

} // verus!
