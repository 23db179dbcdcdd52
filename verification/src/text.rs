//! Text helpers on `str` and `String`, stated over their character sequences.

use vstd::prelude::*;

verus! {

/// Whether a character has the Unicode `White_Space` property
/// (`char::is_whitespace`): the controls U+0009 to U+000D, the space U+0020,
/// U+0085, the no-break space U+00A0, U+1680, the spaces U+2000 to U+200A,
/// the line and paragraph separators U+2028 and U+2029, U+202F, U+205F and
/// the ideographic space U+3000.
pub open spec fn whitespace(c: char) -> bool {
    let u = c as int;
    ||| 0x9 <= u <= 0xD
    ||| u == 0x20
    ||| u == 0x85
    ||| u == 0xA0
    ||| u == 0x1680
    ||| 0x2000 <= u <= 0x200A
    ||| u == 0x2028
    ||| u == 0x2029
    ||| u == 0x202F
    ||| u == 0x205F
    ||| u == 0x3000
}

/// Whether a character is alphabetic or numeric in Unicode
/// (`char::is_alphanumeric`).
pub uninterp spec fn alphanumeric(c: char) -> bool;

/// The lowercase equivalent of a string under Unicode's case mapping
/// (`str::to_lowercase`).
pub uninterp spec fn lowercase(s: Seq<char>) -> Seq<char>;

/// Whether a character has the Unicode `White_Space` property, as
/// `char::is_whitespace` answers.
pub fn is_whitespace(c: char) -> (b: bool)
    ensures
        b == whitespace(c),
{
    let u = c as u32;
    (0x9 <= u && u <= 0xD) || u == 0x20 || u == 0x85 || u == 0xA0 || u == 0x1680 || (0x2000 <= u
        && u <= 0x200A) || u == 0x2028 || u == 0x2029 || u == 0x202F || u == 0x205F || u == 0x3000
}

/// An ASCII letter or digit.
pub open spec fn ascii_alphanumeric(c: char) -> bool {
    let u = c as int;
    ||| 0x30 <= u <= 0x39
    ||| 0x41 <= u <= 0x5A
    ||| 0x61 <= u <= 0x7A
}

/// `char::is_alphanumeric` from std: true for the characters that are
/// alphabetic or numeric in Unicode. Its result is named, not spelled out;
/// stated besides is what std documents for ASCII: its letters and digits are
/// alphanumeric and its other characters are not.
#[verifier::external_body]
pub(crate) fn is_alphanumeric(c: char) -> (b: bool)
    ensures
        b == alphanumeric(c),
        (c as int) < 0x80 ==> (b <==> ascii_alphanumeric(c)),
{
    c.is_alphanumeric()
}

/// `str::to_lowercase` from std: the lowercase equivalent of the string under
/// Unicode's case mapping (a character may become several, and a capital
/// sigma at the end of a word becomes a final sigma). Its result is named,
/// not spelled out.
#[verifier::external_body]
pub(crate) fn to_lowercase(s: &str) -> (r: String)
    ensures
        r@ == lowercase(s@),
{
    s.to_lowercase()
}

/// `String::push` from std: appends one character.
#[verifier::external_body]
pub(crate) fn push_char(s: &mut String, c: char)
    ensures
        final(s)@ == old(s)@.push(c),
{
    s.push(c)
}

/// `s` without its leading whitespace.
pub open spec fn trim_start(s: Seq<char>) -> Seq<char>
    decreases s.len(),
{
    if s.len() > 0 && whitespace(s[0]) {
        trim_start(s.drop_first())
    } else {
        s
    }
}

/// `s` without its trailing whitespace.
pub open spec fn trim_end(s: Seq<char>) -> Seq<char>
    decreases s.len(),
{
    if s.len() > 0 && whitespace(s.last()) {
        trim_end(s.drop_last())
    } else {
        s
    }
}

/// `s` without leading and trailing whitespace (`str::trim`).
pub open spec fn trimmed(s: Seq<char>) -> Seq<char> {
    trim_end(trim_start(s))
}

/// The characters of `s` without leading and trailing whitespace.
pub fn trim(s: &str) -> (r: String)
    ensures
        r@ == trimmed(s@),
{
    let ghost t = s@;
    let n = s.unicode_len();
    assert(t.subrange(0, n as int) =~= t);
    let mut a: usize = 0;
    while a < n && is_whitespace(s.get_char(a))
        invariant
            n == t.len(),
            t == s@,
            a <= n,
            trim_start(t) == trim_start(t.subrange(a as int, n as int)),
        decreases n - a,
    {
        assert(t.subrange(a as int, n as int).drop_first() =~= t.subrange(a + 1, n as int));
        a = a + 1;
    }
    assert(trim_start(t) == t.subrange(a as int, n as int));
    let ghost u = t.subrange(a as int, n as int);
    let mut b: usize = n;
    assert(t.subrange(a as int, b as int) =~= u);
    while b > a && is_whitespace(s.get_char(b - 1))
        invariant
            n == t.len(),
            t == s@,
            a <= b <= n,
            u == t.subrange(a as int, n as int),
            trim_end(u) == trim_end(t.subrange(a as int, b as int)),
        decreases b - a,
    {
        assert(t.subrange(a as int, b as int).drop_last() =~= t.subrange(a as int, b - 1));
        b = b - 1;
    }
    assert(trim_end(u) == t.subrange(a as int, b as int));
    let mut r = String::new();
    let mut k = a;
    assert(t.subrange(a as int, k as int) =~= Seq::<char>::empty());
    while k < b
        invariant
            n == t.len(),
            t == s@,
            a <= k <= b <= n,
            r@ == t.subrange(a as int, k as int),
        decreases b - k,
    {
        push_char(&mut r, s.get_char(k));
        assert(t.subrange(a as int, k + 1) =~= t.subrange(a as int, k as int).push(t[k as int]));
        k = k + 1;
    }
    r
}

/// `a` comes strictly before `b` in lexicographic order of character codes
/// (the order of `String`'s comparison).
pub open spec fn seq_lt(a: Seq<char>, b: Seq<char>) -> bool
    decreases a.len(),
{
    if b.len() == 0 {
        false
    } else if a.len() == 0 {
        true
    } else if a[0] != b[0] {
        (a[0] as int) < (b[0] as int)
    } else {
        seq_lt(a.drop_first(), b.drop_first())
    }
}

/// Whether `a` comes strictly before `b` in lexicographic order.
pub fn str_lt(a: &str, b: &str) -> (r: bool)
    ensures
        r == seq_lt(a@, b@),
{
    let ghost sa = a@;
    let ghost sb = b@;
    let na = a.unicode_len();
    let nb = b.unicode_len();
    assert(sa.subrange(0, na as int) =~= sa);
    assert(sb.subrange(0, nb as int) =~= sb);
    let mut k: usize = 0;
    while k < na && k < nb && a.get_char(k) == b.get_char(k)
        invariant
            na == sa.len(),
            nb == sb.len(),
            sa == a@,
            sb == b@,
            k <= na,
            k <= nb,
            seq_lt(sa, sb) == seq_lt(sa.subrange(k as int, na as int), sb.subrange(k as int, nb as int)),
        decreases na - k,
    {
        assert(sa.subrange(k as int, na as int).drop_first() =~= sa.subrange(k + 1, na as int));
        assert(sb.subrange(k as int, nb as int).drop_first() =~= sb.subrange(k + 1, nb as int));
        k = k + 1;
    }
    if k == nb {
        false
    } else if k == na {
        true
    } else {
        (a.get_char(k) as u32) < (b.get_char(k) as u32)
    }
}

/// `a` is not after `b` in lexicographic order.
pub open spec fn seq_le(a: Seq<char>, b: Seq<char>) -> bool {
    !seq_lt(b, a)
}

/// Lexicographic order is irreflexive and asymmetric.
pub proof fn lemma_seq_lt_asym(a: Seq<char>, b: Seq<char>)
    ensures
        !seq_lt(a, a),
        seq_lt(a, b) ==> !seq_lt(b, a),
    decreases a.len(),
{
    if a.len() > 0 {
        lemma_seq_lt_asym(a.drop_first(), a.drop_first());
        if b.len() > 0 {
            lemma_seq_lt_asym(a.drop_first(), b.drop_first());
        }
    }
}

/// Lexicographic order is total: of two different sequences, one comes first.
pub proof fn lemma_seq_lt_total(a: Seq<char>, b: Seq<char>)
    ensures
        a == b || seq_lt(a, b) || seq_lt(b, a),
    decreases a.len(),
{
    if a.len() > 0 && b.len() > 0 {
        if a[0] == b[0] {
            lemma_seq_lt_total(a.drop_first(), b.drop_first());
            if a.drop_first() == b.drop_first() {
                assert(a =~= b.drop_first().insert(0, a[0]));
                assert(b =~= b.drop_first().insert(0, b[0]));
            }
        } else {
            assert((a[0] as int) != (b[0] as int));
        }
    } else if a.len() == 0 && b.len() == 0 {
        assert(a =~= b);
    }
}

/// Lexicographic order is transitive.
pub proof fn lemma_seq_lt_trans(a: Seq<char>, b: Seq<char>, c: Seq<char>)
    requires
        seq_lt(a, b),
        seq_lt(b, c),
    ensures
        seq_lt(a, c),
    decreases a.len(),
{
    if a.len() > 0 && a[0] == b[0] && b[0] == c[0] {
        lemma_seq_lt_trans(a.drop_first(), b.drop_first(), c.drop_first());
    }
}

/// Not-after is transitive.
pub proof fn lemma_seq_le_trans(a: Seq<char>, b: Seq<char>, c: Seq<char>)
    requires
        seq_le(a, b),
        seq_le(b, c),
    ensures
        seq_le(a, c),
{
    lemma_seq_lt_total(a, b);
    lemma_seq_lt_total(b, c);
    if seq_lt(c, a) {
        if a == b {
        } else if b == c {
        } else {
            lemma_seq_lt_trans(a, b, c);
            lemma_seq_lt_asym(a, c);
        }
    }
}

} // verus!
