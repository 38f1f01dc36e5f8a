use vstd::prelude::*;

verus! {

/// The UTF-8 bytes of a string.
pub open spec fn utf8(s: Seq<char>) -> Seq<u8> {
    vstd::utf8::encode_utf8(s)
}

/// UTF-8 bytes folded for case-insensitive matching against lower-case ASCII
/// words: ASCII capitals are lowered, and the Kelvin sign (U+212A, whose lower
/// case is `k`) becomes `k`; every other byte is kept. A folded string equals a
/// lower-case ASCII word exactly when its Unicode lower case does.
pub open spec fn fold_bytes(b: Seq<u8>) -> Seq<u8>
    decreases b.len(),
{
    if b.len() == 0 {
        Seq::empty()
    } else if b.len() >= 3 && b[0] == 0xe2 && b[1] == 0x84 && b[2] == 0xaa {
        seq![107u8] + fold_bytes(b.skip(3))
    } else if 65 <= b[0] <= 90 {
        seq![(b[0] + 32) as u8] + fold_bytes(b.skip(1))
    } else {
        seq![b[0]] + fold_bytes(b.skip(1))
    }
}

/// The folded UTF-8 bytes of `s` (see `fold_bytes`).
pub fn fold_key(s: &str) -> (r: Vec<u8>)
    ensures
        r@ == fold_bytes(utf8(s@)),
{
    let b = s.as_bytes();
    let n = b.len();
    let mut out: Vec<u8> = Vec::new();
    let mut i: usize = 0;
    assert(b@.skip(0) =~= b@);
    while i < n
        invariant
            i <= n,
            n == b@.len(),
            b@ == utf8(s@),
            out@ + fold_bytes(b@.skip(i as int)) == fold_bytes(b@),
        decreases n - i,
    {
        let ghost rest = b@.skip(i as int);
        if n - i > 2 && b[i] == 0xe2 && b[i + 1] == 0x84 && b[i + 2] == 0xaa {
            assert(rest[0] == b@[i as int] && rest[1] == b@[i + 1] && rest[2] == b@[i + 2]);
            assert(rest.skip(3) =~= b@.skip(i + 3));
            out.push(107);
            assert(out@ + fold_bytes(b@.skip(i + 3)) =~= fold_bytes(b@));
            i = i + 3;
        } else {
            let c = b[i];
            assert(rest[0] == c);
            assert(rest.skip(1) =~= b@.skip(i + 1));
            assert(!(rest.len() >= 3 && rest[0] == 0xe2 && rest[1] == 0x84 && rest[2] == 0xaa)) by {
                if rest.len() >= 3 && rest[0] == 0xe2 && rest[1] == 0x84 && rest[2] == 0xaa {
                    assert(rest[1] == b@[i + 1] && rest[2] == b@[i + 2]);
                }
            }
            if 65 <= c && c <= 90 {
                out.push(c + 32);
            } else {
                out.push(c);
            }
            assert(out@ + fold_bytes(b@.skip(i + 1)) =~= fold_bytes(b@));
            i = i + 1;
        }
    }
    assert(b@.skip(n as int) =~= Seq::<u8>::empty());
    assert(out@ =~= fold_bytes(b@));
    out
}

/// Whether the folded key spells the word `kw`.
pub fn is_word(key: &Vec<u8>, kw: &str) -> (r: bool)
    ensures
        r == (key@ == utf8(kw@)),
{
    let b = kw.as_bytes();
    if key.len() != b.len() {
        return false;
    }
    let mut i: usize = 0;
    while i < b.len()
        invariant
            key@.len() == b@.len(),
            b@ == utf8(kw@),
            i <= b@.len(),
            forall|j: int| 0 <= j < i ==> key@[j] == b@[j],
        decreases b@.len() - i,
    {
        if key[i] != b[i] {
            assert(key@[i as int] != b@[i as int]);
            return false;
        }
        i = i + 1;
    }
    assert(key@ =~= b@);
    true
}

/// `prefix` followed by `s`, as a new string.
pub fn message_with(prefix: &str, s: &str) -> (r: String)
    ensures
        r@ == prefix@ + s@,
{
    let mut m = String::from_str(prefix);
    m.append(s);
    m
}


/// `a` comes no later than `b` in byte-wise lexicographic order, the order
/// of Rust's string comparison.
pub open spec fn bytes_le(a: Seq<u8>, b: Seq<u8>) -> bool
    decreases a.len(),
{
    if a.len() == 0 {
        true
    } else if b.len() == 0 {
        false
    } else if a[0] != b[0] {
        a[0] < b[0]
    } else {
        bytes_le(a.drop_first(), b.drop_first())
    }
}

/// Byte-wise order is total.
pub proof fn lemma_bytes_le_total(a: Seq<u8>, b: Seq<u8>)
    ensures
        bytes_le(a, b) || bytes_le(b, a),
    decreases a.len(),
{
    if a.len() > 0 && b.len() > 0 && a[0] == b[0] {
        lemma_bytes_le_total(a.drop_first(), b.drop_first());
    }
}

/// Byte-wise order is transitive.
pub proof fn lemma_bytes_le_transitive(a: Seq<u8>, b: Seq<u8>, c: Seq<u8>)
    requires
        bytes_le(a, b),
        bytes_le(b, c),
    ensures
        bytes_le(a, c),
    decreases a.len(),
{
    if a.len() > 0 && b.len() > 0 && c.len() > 0 && a[0] == b[0] && b[0] == c[0] {
        lemma_bytes_le_transitive(a.drop_first(), b.drop_first(), c.drop_first());
    }
}

/// Whether `a` sorts no later than `b` (byte-wise, as Rust compares strings).
pub fn str_le(a: &str, b: &str) -> (r: bool)
    ensures
        r == bytes_le(utf8(a@), utf8(b@)),
{
    let x = a.as_bytes();
    let y = b.as_bytes();
    let mut i: usize = 0;
    assert(x@.skip(0) =~= x@ && y@.skip(0) =~= y@);
    while i < x.len() && i < y.len() && x[i] == y[i]
        invariant
            i <= x@.len(),
            i <= y@.len(),
            x@ == utf8(a@),
            y@ == utf8(b@),
            bytes_le(x@, y@) == bytes_le(x@.skip(i as int), y@.skip(i as int)),
        decreases x@.len() - i,
    {
        let ghost xs = x@.skip(i as int);
        let ghost ys = y@.skip(i as int);
        assert(xs.drop_first() =~= x@.skip(i + 1));
        assert(ys.drop_first() =~= y@.skip(i + 1));
        i = i + 1;
    }
    let ghost xs = x@.skip(i as int);
    let ghost ys = y@.skip(i as int);
    if i == x.len() {
        assert(xs.len() == 0);
        true
    } else if i == y.len() {
        assert(ys.len() == 0 && xs.len() > 0);
        false
    } else {
        assert(xs[0] == x@[i as int] && ys[0] == y@[i as int]);
        x[i] < y[i]
    }
}

/// The decimal digit `d` as a character.
pub open spec fn digit_char(d: int) -> char {
    (48 + d) as char
}

/// The digit `d` (below 10) as a one-character string.
pub fn digit_str(d: u64) -> (s: &'static str)
    requires
        d < 10,
    ensures
        s@ == seq![digit_char(d as int)],
{
    proof {
        reveal_strlit("0");
        reveal_strlit("1");
        reveal_strlit("2");
        reveal_strlit("3");
        reveal_strlit("4");
        reveal_strlit("5");
        reveal_strlit("6");
        reveal_strlit("7");
        reveal_strlit("8");
        reveal_strlit("9");
    }
    match d {
        0 => "0",
        1 => "1",
        2 => "2",
        3 => "3",
        4 => "4",
        5 => "5",
        6 => "6",
        7 => "7",
        8 => "8",
        _ => "9",
    }
}

/// `n` in decimal digits, most significant first, without leading zeros.
pub open spec fn decimal(n: nat) -> Seq<char>
    decreases n,
{
    if n < 10 {
        seq![digit_char(n as int)]
    } else {
        decimal(n / 10).push(digit_char((n % 10) as int))
    }
}

/// Append `n` in decimal.
pub fn push_decimal(s: &mut String, n: u64)
    ensures
        final(s)@ == old(s)@ + decimal(n as nat),
    decreases n,
{
    if n >= 10 {
        push_decimal(s, n / 10);
    }
    s.append(digit_str(n % 10));
    assert(final(s)@ =~= old(s)@ + decimal(n as nat));
}

} // verus!
