//! The byte buffer a trace writes into, and decimal spelling of numbers.

use vstd::prelude::*;
use vstd::utf8::*;

verus! {

/// The character `'0' + d` for a decimal digit `d`.
pub open spec fn digit_char(d: nat) -> char {
    ((d + 48) as u32) as char
}

/// The decimal spelling of `n`, most significant digit first, with no
/// leading zeros (zero itself is spelled `"0"`).
pub open spec fn decimal(n: nat) -> Seq<char>
    decreases n,
{
    if n < 10 {
        seq![digit_char(n)]
    } else {
        decimal(n / 10).push(digit_char(n % 10))
    }
}

/// UTF-8 encoding distributes over concatenation.
pub proof fn lemma_encode_utf8_concat(a: Seq<char>, b: Seq<char>)
    ensures
        encode_utf8(a + b) == encode_utf8(a) + encode_utf8(b),
    decreases a.len(),
{
    if a.len() == 0 {
        assert(a + b =~= b);
    } else {
        lemma_encode_utf8_concat(a.drop_first(), b);
        assert((a + b).drop_first() =~= a.drop_first() + b);
        assert((a + b)[0] == a[0]);
    }
}

/// The one-character string spelling the decimal digit `d`.
fn digit_str(d: u64) -> (s: &'static str)
    requires
        d < 10,
    ensures
        s@ == seq![digit_char(d as nat)],
{
    proof {
        reveal_strlit("0");
        reveal_strlit("1");
        reveal_strlit("2");
        reveal_strlit("3");
        reveal_strlit("4");
        reveal_strlit("5");
        reveal_strlit("6");
        reveal_strlit("7");
        reveal_strlit("8");
        reveal_strlit("9");
    }
    match d {
        0 => "0",
        1 => "1",
        2 => "2",
        3 => "3",
        4 => "4",
        5 => "5",
        6 => "6",
        7 => "7",
        8 => "8",
        _ => "9",
    }
}

/// The decimal spelling of `n`.
pub fn decimal_string(n: u64) -> (s: String)
    ensures
        s@ == decimal(n as nat),
{
    // Digits, least significant first.
    let mut digits: Vec<u64> = Vec::new();
    let mut m: u64 = n;
    while m >= 10
        invariant
            decimal(n as nat) == decimal(m as nat) + digits@.map_values(|d: u64| digit_char(d as nat)).reverse(),
            forall|k: int| 0 <= k < digits@.len() ==> #[trigger] digits@[k] < 10,
        decreases m,
    {
        let d = m % 10;
        proof {
            assert(decimal(m as nat) == decimal((m / 10) as nat).push(digit_char(d as nat)));
            assert(digits@.push(d).map_values(|d: u64| digit_char(d as nat)) =~= digits@.map_values(
                |d: u64| digit_char(d as nat),
            ).push(digit_char(d as nat)));
            assert(digits@.map_values(|d: u64| digit_char(d as nat)).push(digit_char(d as nat)).reverse()
                =~= seq![digit_char(d as nat)] + digits@.map_values(|d: u64| digit_char(d as nat)).reverse());
        }
        digits.push(d);
        m = m / 10;
    }
    proof {
        assert(digits@.push(m).map_values(|d: u64| digit_char(d as nat)) =~= digits@.map_values(
            |d: u64| digit_char(d as nat),
        ).push(digit_char(m as nat)));
        assert(digits@.map_values(|d: u64| digit_char(d as nat)).push(digit_char(m as nat)).reverse()
            =~= seq![digit_char(m as nat)] + digits@.map_values(|d: u64| digit_char(d as nat)).reverse());
    }
    digits.push(m);
    let ghost all = digits@.map_values(|d: u64| digit_char(d as nat));
    let mut s = String::new();
    let mut i: usize = digits.len();
    while i > 0
        invariant
            i <= digits@.len(),
            all == digits@.map_values(|d: u64| digit_char(d as nat)),
            decimal(n as nat) == all.reverse(),
            forall|k: int| 0 <= k < digits@.len() ==> #[trigger] digits@[k] < 10,
            s@ == all.subrange(i as int, all.len() as int).reverse(),
        decreases i,
    {
        i = i - 1;
        s.append(digit_str(digits[i]));
        assert(all.subrange(i as int, all.len() as int) =~= seq![all[i as int]] + all.subrange(
            i + 1,
            all.len() as int,
        ));
        assert(s@ =~= all.subrange(i as int, all.len() as int).reverse());
    }
    assert(all.subrange(0, all.len() as int) =~= all);
    s
}

/// The byte buffer a trace writes into.
///
/// The stream a sink produces is the bytes it was created with (`prefix`)
/// followed by the UTF-8 encoding of all text written to it since. The
/// first `taken` bytes of that stream have been handed out; the buffer
/// holds the rest.
pub struct TextSink {
    bytes: Vec<u8>,
    prefix: Ghost<Seq<u8>>,
    text: Ghost<Seq<char>>,
    taken: Ghost<nat>,
}

impl TextSink {
    /// The bytes the sink was created with.
    pub closed spec fn prefix(&self) -> Seq<u8> {
        self.prefix@
    }

    /// All text written since the sink was created.
    pub closed spec fn text(&self) -> Seq<char> {
        self.text@
    }

    /// How many bytes of the stream have been handed out.
    pub closed spec fn taken(&self) -> nat {
        self.taken@
    }

    /// The whole stream: the prefix, then the encoding of the text.
    pub open spec fn stream(&self) -> Seq<u8> {
        self.prefix() + encode_utf8(self.text())
    }

    /// The buffer holds the part of the stream not handed out yet.
    pub closed spec fn inv(&self) -> bool {
        &&& self.taken@ <= self.stream().len()
        &&& self.bytes@ == self.stream().skip(self.taken@ as int)
    }

    pub fn new(bytes: Vec<u8>) -> (sink: Self)
        ensures
            sink.inv(),
            sink.prefix() == bytes@,
            sink.text() == Seq::<char>::empty(),
            sink.taken() == 0,
    {
        let ghost prefix = bytes@;
        let sink = TextSink { bytes, prefix: Ghost(prefix), text: Ghost(Seq::empty()), taken: Ghost(0) };
        assert(encode_utf8(Seq::<char>::empty()) =~= Seq::<u8>::empty());
        assert(sink.stream().skip(0) =~= prefix);
        sink
    }

    /// Surrender the bytes not handed out yet.
    pub fn into_bytes(self) -> (bytes: Vec<u8>)
        requires
            self.inv(),
        ensures
            bytes@ == self.stream().skip(self.taken() as int),
    {
        self.bytes
    }

    /// Hand out the bytes not handed out yet.
    pub fn take(&mut self) -> (bytes: Vec<u8>)
        requires
            old(self).inv(),
        ensures
            final(self).inv(),
            final(self).prefix() == old(self).prefix(),
            final(self).text() == old(self).text(),
            final(self).taken() == old(self).stream().len(),
            bytes@ == old(self).stream().skip(old(self).taken() as int),
    {
        let mut bytes: Vec<u8> = Vec::new();
        std::mem::swap(&mut bytes, &mut self.bytes);
        self.taken = Ghost(self.stream().len());
        assert(self.stream().skip(self.taken@ as int) =~= Seq::<u8>::empty());
        bytes
    }

    /// Append a string.
    pub fn push_str(&mut self, s: &str)
        requires
            old(self).inv(),
        ensures
            final(self).inv(),
            final(self).prefix() == old(self).prefix(),
            final(self).taken() == old(self).taken(),
            final(self).text() == old(self).text() + s@,
    {
        let src = s.as_bytes();
        let ghost start = self.bytes@;
        let n = src.len();
        let mut i: usize = 0;
        while i < n
            invariant
                n == src@.len(),
                src@ == encode_utf8(s@),
                i <= n,
                self.prefix@ == old(self).prefix@,
                self.text@ == old(self).text@,
                self.taken@ == old(self).taken@,
                start == old(self).bytes@,
                self.bytes@ == start + src@.subrange(0, i as int),
            decreases n - i,
        {
            self.bytes.push(src[i]);
            assert(src@.subrange(0, i + 1) =~= src@.subrange(0, i as int).push(src@[i as int]));
            assert(self.bytes@ =~= start + src@.subrange(0, i + 1));
            i = i + 1;
        }
        proof {
            assert(src@.subrange(0, n as int) =~= src@);
            lemma_encode_utf8_concat(self.text@, s@);
        }
        self.text = Ghost(self.text@ + s@);
        assert(self.stream() =~= old(self).stream() + src@);
        assert(self.bytes@ =~= self.stream().skip(self.taken@ as int));
    }

    /// Append the decimal spelling of `n`.
    pub fn push_decimal(&mut self, n: u64)
        requires
            old(self).inv(),
        ensures
            final(self).inv(),
            final(self).prefix() == old(self).prefix(),
            final(self).taken() == old(self).taken(),
            final(self).text() == old(self).text() + decimal(n as nat),
    {
        let digits = decimal_string(n);
        self.push_str(digits.as_str());
    }
}

} // verus!
