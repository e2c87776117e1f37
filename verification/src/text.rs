//! Building text: numbers written out in decimal and hexadecimal, and a
//! buffer of UTF-8 bytes that knows which characters it holds.
use vstd::prelude::*;
use vstd::utf8::*;

use crate::bytes::{push_bytes, utf8_string};

verus! {

/// The digit for `d`, below sixteen: `0` to `9`, then `a` to `f`.
pub open spec fn digit(d: nat) -> Seq<char> {
    if d == 0 {
        "0"@
    } else if d == 1 {
        "1"@
    } else if d == 2 {
        "2"@
    } else if d == 3 {
        "3"@
    } else if d == 4 {
        "4"@
    } else if d == 5 {
        "5"@
    } else if d == 6 {
        "6"@
    } else if d == 7 {
        "7"@
    } else if d == 8 {
        "8"@
    } else if d == 9 {
        "9"@
    } else if d == 10 {
        "a"@
    } else if d == 11 {
        "b"@
    } else if d == 12 {
        "c"@
    } else if d == 13 {
        "d"@
    } else if d == 14 {
        "e"@
    } else {
        "f"@
    }
}

/// `n` in decimal, without leading zeros.
pub open spec fn decimal(n: nat) -> Seq<char>
    decreases n,
{
    if n < 10 {
        digit(n)
    } else {
        decimal(n / 10) + digit(n % 10)
    }
}

/// The last `width` hexadecimal digits of `n`, lower case, zeros in front.
pub open spec fn hex_digits(n: nat, width: nat) -> Seq<char>
    decreases width,
{
    if width == 0 {
        seq![]
    } else {
        hex_digits(n / 16, (width - 1) as nat) + digit(n % 16)
    }
}

/// The numbers in decimal, separated by a comma and a space, in brackets.
pub open spec fn decimal_list(s: Seq<u32>) -> Seq<char> {
    "["@ + decimal_items(s) + "]"@
}

/// The numbers in decimal, separated by a comma and a space.
pub open spec fn decimal_items(s: Seq<u32>) -> Seq<char>
    decreases s.len(),
{
    if s.len() == 0 {
        seq![]
    } else if s.len() == 1 {
        decimal(s[0] as nat)
    } else {
        decimal_items(s.drop_last()) + ", "@ + decimal(s.last() as nat)
    }
}

/// Encoding two runs of characters one after the other gives their encodings
/// one after the other.
pub proof fn lemma_encode_concat(a: Seq<char>, b: Seq<char>)
    ensures
        encode_utf8(a + b) == encode_utf8(a) + encode_utf8(b),
    decreases a.len(),
{
    if a.len() == 0 {
        assert(a + b =~= b);
    } else {
        lemma_encode_concat(a.drop_first(), b);
        assert((a + b).drop_first() =~= a.drop_first() + b);
        assert((a + b)[0] == a[0]);
    }
}

/// The digit for `d` as a string.
fn digit_str(d: u64) -> (r: &'static str)
    requires
        d < 16,
    ensures
        r@ == digit(d as nat),
{
    if d == 0 {
        "0"
    } else if d == 1 {
        "1"
    } else if d == 2 {
        "2"
    } else if d == 3 {
        "3"
    } else if d == 4 {
        "4"
    } else if d == 5 {
        "5"
    } else if d == 6 {
        "6"
    } else if d == 7 {
        "7"
    } else if d == 8 {
        "8"
    } else if d == 9 {
        "9"
    } else if d == 10 {
        "a"
    } else if d == 11 {
        "b"
    } else if d == 12 {
        "c"
    } else if d == 13 {
        "d"
    } else if d == 14 {
        "e"
    } else {
        "f"
    }
}

/// UTF-8 bytes being written, with the characters they encode.
pub(crate) struct Text {
    bytes: Vec<u8>,
    chars: Ghost<Seq<char>>,
}

impl View for Text {
    type V = Seq<char>;

    closed spec fn view(&self) -> Seq<char> {
        self.chars@
    }
}

impl Text {
    /// The bytes are the encoding of the characters.
    pub(crate) closed spec fn wf(self) -> bool {
        self.bytes@ == encode_utf8(self.chars@)
    }

    /// No text yet.
    pub(crate) fn new() -> (r: Text)
        ensures
            r.wf(),
            r@ == Seq::<char>::empty(),
    {
        Text { bytes: Vec::new(), chars: Ghost(Seq::empty()) }
    }

    /// Appends `s`.
    pub(crate) fn push_str(&mut self, s: &str)
        requires
            old(self).wf(),
        ensures
            final(self).wf(),
            final(self)@ == old(self)@ + s@,
    {
        proof {
            lemma_encode_concat(self.chars@, s@);
        }
        push_bytes(&mut self.bytes, s.as_bytes());
        self.chars = Ghost(self.chars@ + s@);
    }

    /// Appends `n` in decimal.
    pub(crate) fn push_decimal(&mut self, n: u64)
        requires
            old(self).wf(),
        ensures
            final(self).wf(),
            final(self)@ == old(self)@ + decimal(n as nat),
        decreases n,
    {
        if n >= 10 {
            self.push_decimal(n / 10);
        }
        self.push_str(digit_str(n % 10));
    }

    /// Appends the last `width` hexadecimal digits of `n`.
    pub(crate) fn push_hex(&mut self, n: u64, width: u32)
        requires
            old(self).wf(),
        ensures
            final(self).wf(),
            final(self)@ == old(self)@ + hex_digits(n as nat, width as nat),
        decreases width,
    {
        if width > 0 {
            self.push_hex(n / 16, width - 1);
            self.push_str(digit_str(n % 16));
        }
    }

    /// Appends the numbers in decimal, separated by a comma and a space, in
    /// brackets.
    pub(crate) fn push_decimal_list(&mut self, s: &[u32])
        requires
            old(self).wf(),
        ensures
            final(self).wf(),
            final(self)@ == old(self)@ + decimal_list(s@),
    {
        let ghost start = self@;
        self.push_str("[");
        let mut i: usize = 0;
        while i < s.len()
            invariant
                i <= s@.len(),
                self.wf(),
                self@ == start + "["@ + decimal_items(s@.take(i as int)),
            decreases s.len() - i,
        {
            if i > 0 {
                self.push_str(", ");
            }
            self.push_decimal(s[i] as u64);
            assert(s@.take((i + 1) as int).drop_last() =~= s@.take(i as int));
            i += 1;
        }
        assert(s@.take(i as int) =~= s@);
        self.push_str("]");
    }

    /// The text as a `String`.
    pub(crate) fn into_string(self) -> (r: String)
        requires
            self.wf(),
        ensures
            r@ == self@,
    {
        proof {
            encode_utf8_valid_utf8(self.chars@);
            encode_utf8_decode_utf8(self.chars@);
        }
        match utf8_string(self.bytes.as_slice()) {
            Some(s) => s,
            None => String::new(),
        }
    }
}

} // verus!
