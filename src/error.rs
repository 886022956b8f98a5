//! Errors of building and solving a circuit.
use vstd::prelude::*;

verus! {

/// What can go wrong while a circuit is built or solved.
#[derive(Debug)]
pub enum Error {
    /// The circuit is misused while it is built: an impedance is asked of an
    /// uninitialised element, a swap is asked of a leaf, or currents are asked
    /// before impedances.
    CircuitBuild(String),
    /// The circuit has no solution at some spectral line: a short circuit.
    CircuitSolve(String),
}

impl Error {
    /// Whether the error comes from building the circuit.
    pub open spec fn is_build(self) -> bool {
        self is CircuitBuild
    }

    /// Whether the error comes from solving the circuit.
    pub open spec fn is_solve(self) -> bool {
        self is CircuitSolve
    }

    /// The error as text: its kind, then its message.
    pub fn to_string(&self) -> (r: String)
        ensures
            r@ == match self {
                Error::CircuitBuild(m) => "CircuitBuild: "@ + m@,
                Error::CircuitSolve(m) => "CircuitSolve: "@ + m@,
            },
    {
        match self {
            Error::CircuitBuild(m) => String::from_str("CircuitBuild: ").concat(m.as_str()),
            Error::CircuitSolve(m) => String::from_str("CircuitSolve: ").concat(m.as_str()),
        }
    }
}

/// The decimal digit `d`.
pub open spec fn digit_char(d: u8) -> char {
    if d == 0 { '0' } else if d == 1 { '1' } else if d == 2 { '2' } else if d == 3 { '3' }
    else if d == 4 { '4' } else if d == 5 { '5' } else if d == 6 { '6' } else if d == 7 { '7' }
    else if d == 8 { '8' } else { '9' }
}

/// A byte written in decimal, without leading zeros.
pub open spec fn byte_text(b: u8) -> Seq<char> {
    if b < 10 {
        seq![digit_char(b)]
    } else if b < 100 {
        seq![digit_char(b / 10), digit_char(b % 10)]
    } else {
        seq![digit_char(b / 100), digit_char((b / 10) % 10), digit_char(b % 10)]
    }
}

/// The bytes of an identifier in decimal, separated by `", "`.
pub open spec fn bytes_text(id: Seq<u8>) -> Seq<char>
    decreases id.len(),
{
    if id.len() == 0 {
        Seq::empty()
    } else if id.len() == 1 {
        byte_text(id[0])
    } else {
        bytes_text(id.drop_last()) + seq![',', ' '] + byte_text(id.last())
    }
}

/// An identifier written as a list: `[0, 12, 3]`.
pub open spec fn id_text(id: Seq<u8>) -> Seq<char> {
    seq!['['] + bytes_text(id) + seq![']']
}

/// The message of a short circuit at the component `id`: a current forced
/// through an open component where `by_current`, else a tension forced
/// across a wire.
pub open spec fn short_circuit_text(by_current: bool, id: Seq<u8>) -> Seq<char> {
    if by_current {
        "a non zero constant current flows into a zero admittance component "@ + id_text(id)
    } else {
        "a non zero constant tension is applied to a zero impedance component "@ + id_text(id)
    }
}

fn digit_str(d: u8) -> (r: &'static str)
    requires
        d < 10,
    ensures
        r@ == seq![digit_char(d)],
{
    proof {
        reveal_strlit("0");
        reveal_strlit("1");
        reveal_strlit("2");
        reveal_strlit("3");
        reveal_strlit("4");
        reveal_strlit("5");
        reveal_strlit("6");
        reveal_strlit("7");
        reveal_strlit("8");
        reveal_strlit("9");
    }
    match d {
        0 => "0",
        1 => "1",
        2 => "2",
        3 => "3",
        4 => "4",
        5 => "5",
        6 => "6",
        7 => "7",
        8 => "8",
        _ => "9",
    }
}

/// Appends the decimal text of `b` to `s`.
fn append_byte(s: &mut String, b: u8)
    ensures
        final(s)@ == old(s)@ + byte_text(b),
{
    if b >= 100 {
        s.append(digit_str(b / 100));
        s.append(digit_str((b / 10) % 10));
    } else if b >= 10 {
        s.append(digit_str(b / 10));
    }
    s.append(digit_str(b % 10));
    assert(final(s)@ =~= old(s)@ + byte_text(b));
}

/// The identifier `id` written as a list: `[0, 12, 3]`.
pub fn id_string(id: &[u8]) -> (r: String)
    ensures
        r@ == id_text(id@),
{
    proof {
        reveal_strlit("[");
        reveal_strlit("]");
        reveal_strlit(", ");
    }
    let mut s = String::from_str("[");
    let mut i: usize = 0;
    while i < id.len()
        invariant
            i <= id@.len(),
            s@ == seq!['['] + bytes_text(id@.subrange(0, i as int)),
        decreases id@.len() - i,
    {
        let ghost prev = id@.subrange(0, i as int);
        let ghost next = id@.subrange(0, i + 1);
        assert(next.drop_last() =~= prev);
        assert(next.last() == id@[i as int]);
        if i > 0 {
            proof {
                reveal_strlit(", ");
                assert(", "@ =~= seq![',', ' ']);
            }
            s.append(", ");
        }
        append_byte(&mut s, id[i]);
        proof {
            if i == 0 {
                assert(prev =~= Seq::<u8>::empty());
                assert(s@ =~= seq!['['] + bytes_text(next));
            } else {
                assert(bytes_text(next) == bytes_text(prev) + seq![',', ' '] + byte_text(id@[i as int]));
                assert(s@ =~= seq!['['] + bytes_text(next));
            }
        }
        i += 1;
    }
    assert(id@.subrange(0, id@.len() as int) =~= id@);
    s.append("]");
    s
}

/// The error of a short circuit at the component `id`.
pub fn short_circuit(by_current: bool, id: &[u8]) -> (r: Error)
    ensures
        r matches Error::CircuitSolve(m) && m@ == short_circuit_text(by_current, id@),
{
    let mut m = if by_current {
        String::from_str("a non zero constant current flows into a zero admittance component ")
    } else {
        String::from_str("a non zero constant tension is applied to a zero impedance component ")
    };
    let t = id_string(id);
    m.append(t.as_str());
    Error::CircuitSolve(m)
}

} // verus!
