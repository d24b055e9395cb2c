//! Lowercase hexadecimal rendering of raw byte strings.
use vstd::prelude::*;

verus! {

/// The sixteen lowercase hexadecimal digits, in order.
pub open spec fn hex_digits() -> Seq<char> {
    seq!['0', '1', '2', '3', '4', '5', '6', '7', '8', '9', 'a', 'b', 'c', 'd', 'e', 'f']
}

/// Two digits for each byte, high nibble first.
pub open spec fn hex_of(b: Seq<u8>) -> Seq<char>
    decreases b.len(),
{
    if b.len() == 0 {
        Seq::empty()
    } else {
        let last = b.last();
        hex_of(b.drop_last()) + seq![hex_digits()[(last / 16) as int], hex_digits()[(last % 16) as int]]
    }
}

/// The digit for a nibble, as a one-character string.
fn hex_digit(n: u8) -> (r: &'static str)
    requires
        n < 16,
    ensures
        r@ == seq![hex_digits()[n as int]],
{
    proof {
        reveal_strlit("0");
        reveal_strlit("1");
        reveal_strlit("2");
        reveal_strlit("3");
        reveal_strlit("4");
        reveal_strlit("5");
        reveal_strlit("6");
        reveal_strlit("7");
        reveal_strlit("8");
        reveal_strlit("9");
        reveal_strlit("a");
        reveal_strlit("b");
        reveal_strlit("c");
        reveal_strlit("d");
        reveal_strlit("e");
        reveal_strlit("f");
    }
    match n {
        0 => "0",
        1 => "1",
        2 => "2",
        3 => "3",
        4 => "4",
        5 => "5",
        6 => "6",
        7 => "7",
        8 => "8",
        9 => "9",
        10 => "a",
        11 => "b",
        12 => "c",
        13 => "d",
        14 => "e",
        _ => "f",
    }
}

/// A raw byte string, such as a device token as it travels on the wire.
pub struct U8Vec(pub Vec<u8>);

impl U8Vec {
    /// The bytes as lowercase hexadecimal, two digits per byte.
    pub fn to_hex(&self) -> (r: String)
        ensures
            r@ == hex_of(self.0@),
    {
        let bytes = &self.0;
        let mut out = String::new();
        let mut i: usize = 0;
        while i < bytes.len()
            invariant
                i <= bytes.len(),
                out@ == hex_of(bytes@.take(i as int)),
            decreases bytes.len() - i,
        {
            let byte = bytes[i];
            out.append(hex_digit(byte / 16));
            out.append(hex_digit(byte % 16));
            proof {
                let t = bytes@.take(i as int + 1);
                assert(t.drop_last() =~= bytes@.take(i as int));
                assert(t.last() == byte);
            }
            i = i + 1;
        }
        proof {
            assert(bytes@.take(bytes.len() as int) =~= bytes@);
        }
        out
    }
}

} // verus!
