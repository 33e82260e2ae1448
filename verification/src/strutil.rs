//! Character-level string utilities shared by the naming and search logic.
//!
//! Specifications measure strings two ways: in characters (`Seq<char>` via a
//! string's view) and in bytes of the UTF-8 encoding (`byte_len`), because the
//! session-name budget is a byte budget.

use vstd::prelude::*;
use vstd::utf8::{encode_scalar, encode_utf8};

verus! {

/// The length in bytes of the UTF-8 encoding of a character sequence.
pub open spec fn byte_len(s: Seq<char>) -> nat {
    encode_utf8(s).len()
}

/// The length in bytes of the UTF-8 encoding of one character.
pub open spec fn char_blen(c: char) -> nat {
    encode_scalar(c as u32).len()
}

pub proof fn lemma_byte_len_concat(a: Seq<char>, b: Seq<char>)
    ensures
        byte_len(a + b) == byte_len(a) + byte_len(b),
    decreases a.len(),
{
    if a.len() == 0 {
        assert(a + b =~= b);
    } else {
        lemma_byte_len_concat(a.drop_first(), b);
        assert((a + b).drop_first() =~= a.drop_first() + b);
    }
}

pub proof fn lemma_byte_len_singleton(c: char)
    ensures
        byte_len(seq![c]) == char_blen(c),
{
    assert(seq![c].drop_first() =~= Seq::<char>::empty());
    assert(seq![c][0] == c);
    assert(encode_utf8(seq![c]) =~= encode_scalar(c as u32) + encode_utf8(
        Seq::<char>::empty(),
    ));
    assert(encode_scalar(c as u32) + encode_utf8(Seq::<char>::empty()) =~= encode_scalar(
        c as u32,
    ));
}

/// Every character encodes to at least one byte, so a string has at least as
/// many bytes as characters.
pub proof fn lemma_byte_len_at_least_chars(s: Seq<char>)
    ensures
        byte_len(s) >= s.len(),
    decreases s.len(),
{
    if s.len() > 0 {
        lemma_byte_len_at_least_chars(s.drop_first());
    }
}

pub proof fn lemma_byte_len_take_one_more(s: Seq<char>, i: int)
    requires
        0 <= i < s.len(),
    ensures
        byte_len(s.take(i + 1)) == byte_len(s.take(i)) + char_blen(s[i]),
{
    lemma_byte_len_concat(s.take(i), seq![s[i]]);
    lemma_byte_len_singleton(s[i]);
    assert(s.take(i + 1) =~= s.take(i) + seq![s[i]]);
}

/// The number of bytes the UTF-8 encoding of `c` occupies.
pub fn char_utf8_len(c: char) -> (n: usize)
    ensures
        n == char_blen(c),
        1 <= n <= 4,
{
    let u = c as u32;
    if u < 0x80 {
        1
    } else if u < 0x800 {
        2
    } else if u < 0x10000 {
        3
    } else {
        4
    }
}

/// Character-for-character equality of two string slices.
pub fn str_eq(a: &str, b: &str) -> (r: bool)
    ensures
        r == (a@ == b@),
{
    let alen = a.unicode_len();
    let blen = b.unicode_len();
    if alen != blen {
        return false;
    }
    let mut i: usize = 0;
    while i < alen
        invariant
            alen == a@.len(),
            alen == b@.len(),
            i <= alen,
            forall|j: int| 0 <= j < i ==> a@[j] == b@[j],
        decreases alen - i,
    {
        if a.get_char(i) != b.get_char(i) {
            assert(a@[i as int] != b@[i as int]);
            return false;
        }
        i = i + 1;
    }
    proof {
        assert(a@ =~= b@);
    }
    true
}

/// Does `a` start with `prefix`, character-wise?
pub open spec fn spec_starts_with(a: Seq<char>, prefix: Seq<char>) -> bool {
    a.len() >= prefix.len() && a.take(prefix.len() as int) == prefix
}

pub fn str_starts_with(a: &str, prefix: &str) -> (r: bool)
    ensures
        r == spec_starts_with(a@, prefix@),
{
    let alen = a.unicode_len();
    let plen = prefix.unicode_len();
    if alen < plen {
        return false;
    }
    let mut i: usize = 0;
    while i < plen
        invariant
            alen == a@.len(),
            plen == prefix@.len(),
            plen <= alen,
            i <= plen,
            forall|j: int| 0 <= j < i ==> a@[j] == prefix@[j],
        decreases plen - i,
    {
        if a.get_char(i) != prefix.get_char(i) {
            assert(a@[i as int] != prefix@[i as int]);
            assert(!spec_starts_with(a@, prefix@)) by {
                if spec_starts_with(a@, prefix@) {
                    assert(a@.take(prefix@.len() as int)[i as int] == a@[i as int]);
                }
            }
            return false;
        }
        i = i + 1;
    }
    proof {
        assert(a@.take(prefix@.len() as int) =~= prefix@);
    }
    true
}

pub fn str_contains_char(s: &str, c: char) -> (r: bool)
    ensures
        r == s@.contains(c),
{
    let len = s.unicode_len();
    let mut i: usize = 0;
    while i < len
        invariant
            len == s@.len(),
            i <= len,
            forall|j: int| 0 <= j < i ==> s@[j] != c,
        decreases len - i,
    {
        if s.get_char(i) == c {
            return true;
        }
        i = i + 1;
    }
    false
}

/// ASCII whitespace, the characters stripped from the edges of input lines.
pub open spec fn is_ws(c: char) -> bool {
    c == ' ' || c == '\t' || c == '\r' || c == '\n'
}

pub open spec fn trim_front(s: Seq<char>) -> Seq<char>
    decreases s.len(),
{
    if s.len() > 0 && is_ws(s[0]) {
        trim_front(s.drop_first())
    } else {
        s
    }
}

pub open spec fn trim_back(s: Seq<char>) -> Seq<char>
    decreases s.len(),
{
    if s.len() > 0 && is_ws(s[s.len() - 1]) {
        trim_back(s.drop_last())
    } else {
        s
    }
}

/// `s` with ASCII whitespace removed from both ends.
pub open spec fn spec_trim(s: Seq<char>) -> Seq<char> {
    trim_back(trim_front(s))
}

proof fn lemma_trim_front_skip(s: Seq<char>, a: int)
    requires
        0 <= a <= s.len(),
        forall|j: int| 0 <= j < a ==> is_ws(s[j]),
        a < s.len() ==> !is_ws(s[a]),
    ensures
        trim_front(s) == s.skip(a),
    decreases a,
{
    if a == 0 {
        assert(s.skip(0) =~= s);
    } else {
        lemma_trim_front_skip(s.drop_first(), a - 1);
        assert(s.drop_first().skip(a - 1) =~= s.skip(a));
    }
}

proof fn lemma_trim_back_take(s: Seq<char>, b: int)
    requires
        0 <= b <= s.len(),
        forall|j: int| b <= j < s.len() ==> is_ws(s[j]),
        b > 0 ==> !is_ws(s[b - 1]),
    ensures
        trim_back(s) == s.take(b),
    decreases s.len() - b,
{
    if b == s.len() {
        assert(s.take(b) =~= s);
    } else {
        lemma_trim_back_take(s.drop_last(), b);
        assert(s.drop_last().take(b) =~= s.take(b));
    }
}

fn char_is_ws(c: char) -> (r: bool)
    ensures
        r == is_ws(c),
{
    c == ' ' || c == '\t' || c == '\r' || c == '\n'
}

/// Strips ASCII whitespace from both ends of `s`.
pub fn trim(s: &str) -> (r: String)
    ensures
        r@ == spec_trim(s@),
{
    let len = s.unicode_len();
    let mut a: usize = 0;
    while a < len && char_is_ws(s.get_char(a))
        invariant
            len == s@.len(),
            a <= len,
            forall|j: int| 0 <= j < a ==> is_ws(s@[j]),
        decreases len - a,
    {
        a = a + 1;
    }
    proof {
        lemma_trim_front_skip(s@, a as int);
    }
    let mut b: usize = len;
    while b > a && char_is_ws(s.get_char(b - 1))
        invariant
            len == s@.len(),
            a <= b <= len,
            forall|j: int| b <= j < len ==> is_ws(s@[j]),
            forall|j: int| 0 <= j < a ==> is_ws(s@[j]),
            a < len ==> !is_ws(s@[a as int]),
        decreases b,
    {
        b = b - 1;
    }
    proof {
        let t = s@.skip(a as int);
        lemma_trim_back_take(t, b - a);
        assert(forall|j: int| #![auto] b - a <= j < t.len() ==> is_ws(t[j]));
        if b > a {
            assert(t[b - a - 1] == s@[b as int - 1]);
        }
    }
    let r = s.substring_char(a, b);
    proof {
        assert(r@ =~= s@.skip(a as int).take(b - a));
    }
    r.to_owned()
}

/// The length of the leading run of characters other than `sep`.
pub open spec fn run_len(s: Seq<char>, sep: char) -> nat
    decreases s.len(),
{
    if s.len() == 0 || s[0] == sep {
        0
    } else {
        1 + run_len(s.drop_first(), sep)
    }
}

pub proof fn lemma_run_len_bound(s: Seq<char>, sep: char)
    ensures
        run_len(s, sep) <= s.len(),
    decreases s.len(),
{
    if s.len() > 0 && s[0] != sep {
        lemma_run_len_bound(s.drop_first(), sep);
    }
}

/// The first index at which a run of non-`sep` characters ends.
pub proof fn lemma_run_len_is(s: Seq<char>, sep: char, k: int)
    requires
        0 <= k <= s.len(),
        forall|j: int| 0 <= j < k ==> s[j] != sep,
        k < s.len() ==> s[k] == sep,
    ensures
        run_len(s, sep) == k,
    decreases k,
{
    if k == 0 {
    } else {
        lemma_run_len_is(s.drop_first(), sep, k - 1);
    }
}

/// The maximal runs of non-`sep` characters in `s`, in order, with empty
/// runs dropped.
pub open spec fn split_char_spec(s: Seq<char>, sep: char) -> Seq<Seq<char>>
    decreases s.len(),
{
    if s.len() == 0 {
        seq![]
    } else if s[0] == sep {
        split_char_spec(s.drop_first(), sep)
    } else {
        let k = if run_len(s, sep) <= s.len() {
            run_len(s, sep) as int
        } else {
            s.len() as int
        };
        seq![s.take(k)] + split_char_spec(s.skip(k), sep)
    }
}

/// The path components of `s`: maximal runs of non-`'/'` characters, in
/// order, with empty runs dropped.
pub open spec fn segments_of(s: Seq<char>) -> Seq<Seq<char>> {
    split_char_spec(s, '/')
}

/// Splits `s` on `sep`, dropping empty components.
pub fn split_on_char(s: &str, sep: char) -> (r: Vec<String>)
    ensures
        r.deep_view() == split_char_spec(s@, sep),
{
    let len = s.unicode_len();
    let mut r: Vec<String> = Vec::new();
    let mut p: usize = 0;
    proof {
        assert(s@.skip(0) =~= s@);
        assert(r.deep_view() =~= Seq::<Seq<char>>::empty());
        assert(r.deep_view() + split_char_spec(s@, sep) =~= split_char_spec(s@, sep));
    }
    while p < len
        invariant
            len == s@.len(),
            p <= len,
            r.deep_view() + split_char_spec(s@.skip(p as int), sep) =~= split_char_spec(s@, sep),
        decreases len - p,
    {
        if s.get_char(p) == sep {
            proof {
                assert(s@.skip(p as int).drop_first() =~= s@.skip(p as int + 1));
            }
            p = p + 1;
        } else {
            let start = p;
            let mut q = p + 1;
            while q < len && s.get_char(q) != sep
                invariant
                    len == s@.len(),
                    p < q <= len,
                    forall|j: int| p <= j < q ==> s@[j] != sep,
                decreases len - q,
            {
                q = q + 1;
            }
            let piece = s.substring_char(p, q).to_owned();
            proof {
                let t = s@.skip(p as int);
                lemma_run_len_is(t, sep, q - p);
                lemma_run_len_bound(t, sep);
                assert(piece@ =~= t.take(q - p));
                assert(t.skip(q - p) =~= s@.skip(q as int));
                assert(split_char_spec(t, sep) == seq![piece@] + split_char_spec(
                    s@.skip(q as int),
                    sep,
                ));
            }
            let ghost pre = r.deep_view();
            r.push(piece);
            proof {
                assert(r.deep_view() =~= pre + seq![piece@]);
                assert((pre + seq![piece@]) + split_char_spec(s@.skip(q as int), sep) =~= pre + (
                seq![piece@] + split_char_spec(s@.skip(q as int), sep)));
            }
            p = q;
        }
    }
    proof {
        assert(s@.skip(len as int) =~= Seq::<char>::empty());
        assert(r.deep_view() + split_char_spec(s@.skip(len as int), sep) =~= r.deep_view());
    }
    r
}

/// The pieces joined with `sep` between consecutive pieces.
pub open spec fn join(pieces: Seq<Seq<char>>, sep: Seq<char>) -> Seq<char>
    decreases pieces.len(),
{
    if pieces.len() == 0 {
        Seq::empty()
    } else if pieces.len() == 1 {
        pieces[0]
    } else {
        pieces[0] + sep + join(pieces.drop_first(), sep)
    }
}

pub proof fn lemma_join_push(pieces: Seq<Seq<char>>, x: Seq<char>, sep: Seq<char>)
    ensures
        join(pieces.push(x), sep) == if pieces.len() == 0 {
            x
        } else {
            join(pieces, sep) + sep + x
        },
    decreases pieces.len(),
{
    if pieces.len() == 0 {
        assert(pieces.push(x) =~= seq![x]);
    } else {
        assert(pieces.push(x).drop_first() =~= pieces.drop_first().push(x));
        lemma_join_push(pieces.drop_first(), x, sep);
        if pieces.len() == 1 {
            assert(join(pieces.push(x), sep) == pieces[0] + sep + x);
            assert(join(pieces, sep) == pieces[0]);
        } else {
            assert(join(pieces.push(x), sep) == pieces[0] + sep + (join(
                pieces.drop_first(),
                sep,
            ) + sep + x));
            assert(join(pieces, sep) + sep + x =~= pieces[0] + sep + (join(
                pieces.drop_first(),
                sep,
            ) + sep + x));
        }
    }
}

/// Joins the pieces with `sep`.
pub fn join_strings(pieces: &Vec<String>, sep: &str) -> (r: String)
    ensures
        r@ == join(pieces.deep_view(), sep@),
{
    let ghost dv = pieces.deep_view();
    let mut r = String::new();
    let n = pieces.len();
    let mut i: usize = 0;
    proof {
        assert(dv.take(0) =~= Seq::<Seq<char>>::empty());
    }
    while i < n
        invariant
            n == pieces.len(),
            dv == pieces.deep_view(),
            i <= n,
            r@ == join(dv.take(i as int), sep@),
        decreases n - i,
    {
        if i > 0 {
            r.append(sep);
        }
        r.append(pieces[i].as_str());
        proof {
            lemma_join_push(dv.take(i as int), dv[i as int], sep@);
            assert(dv.take(i as int + 1) =~= dv.take(i as int).push(dv[i as int]));
            if i == 0 {
                assert(r@ =~= dv[0]);
            } else {
                assert(r@ =~= join(dv.take(i as int), sep@) + sep@ + dv[i as int]);
            }
        }
        i = i + 1;
    }
    proof {
        assert(dv.take(n as int) =~= dv);
    }
    r
}

/// The longest prefix of `s` whose UTF-8 encoding fits in `budget` bytes.
pub open spec fn spec_truncate_bytes(s: Seq<char>, budget: nat) -> Seq<char>
    decreases s.len(),
{
    if byte_len(s) <= budget {
        s
    } else {
        spec_truncate_bytes(s.drop_last(), budget)
    }
}

pub proof fn lemma_byte_len_take_monotone(s: Seq<char>, i: int, j: int)
    requires
        0 <= i <= j <= s.len(),
    ensures
        byte_len(s.take(i)) <= byte_len(s.take(j)),
{
    assert(s.take(j) =~= s.take(i) + s.take(j).skip(i));
    lemma_byte_len_concat(s.take(i), s.take(j).skip(i));
}

pub proof fn lemma_truncate_bytes_bound(s: Seq<char>, budget: nat)
    ensures
        byte_len(spec_truncate_bytes(s, budget)) <= budget,
    decreases s.len(),
{
    if byte_len(s) > budget {
        lemma_truncate_bytes_bound(s.drop_last(), budget);
    }
}

proof fn lemma_truncate_is_take(s: Seq<char>, budget: nat, m: int)
    requires
        0 <= m <= s.len(),
        byte_len(s.take(m)) <= budget,
        m < s.len() ==> byte_len(s.take(m + 1)) > budget,
    ensures
        spec_truncate_bytes(s, budget) == s.take(m),
    decreases s.len(),
{
    if byte_len(s) <= budget {
        if m < s.len() {
            lemma_byte_len_take_monotone(s, m + 1, s.len() as int);
            assert(s.take(s.len() as int) =~= s);
            assert(false);
        }
        assert(s.take(m) =~= s);
    } else {
        if m == s.len() {
            assert(s.take(m) =~= s);
            assert(false);
        }
        let t = s.drop_last();
        assert(t.take(m) =~= s.take(m));
        if m < t.len() {
            assert(t.take(m + 1) =~= s.take(m + 1));
        }
        lemma_truncate_is_take(t, budget, m);
    }
}

/// Keeps the longest character prefix of `s` that fits in `budget` bytes.
pub fn truncate_to_bytes(s: &str, budget: usize) -> (r: String)
    ensures
        r@ == spec_truncate_bytes(s@, budget as nat),
{
    let len = s.unicode_len();
    let mut m: usize = 0;
    let mut bytes: usize = 0;
    proof {
        assert(s@.take(0) =~= Seq::<char>::empty());
    }
    while m < len
        invariant
            len == s@.len(),
            m <= len,
            bytes == byte_len(s@.take(m as int)),
            bytes <= budget,
        decreases len - m,
    {
        let cb = char_utf8_len(s.get_char(m));
        if cb <= budget - bytes {
            proof {
                lemma_byte_len_take_one_more(s@, m as int);
            }
            bytes = bytes + cb;
            m = m + 1;
        } else {
            proof {
                lemma_byte_len_take_one_more(s@, m as int);
                lemma_truncate_is_take(s@, budget as nat, m as int);
            }
            let r = s.substring_char(0, m);
            proof {
                assert(r@ =~= s@.take(m as int));
            }
            return r.to_owned();
        }
    }
    proof {
        assert(s@.take(m as int) =~= s@);
        lemma_truncate_is_take(s@, budget as nat, m as int);
    }
    s.to_owned()
}

/// Does the UTF-8 encoding of `s` fit in `cap` bytes?
pub fn byte_len_le(s: &str, cap: usize) -> (r: bool)
    ensures
        r == (byte_len(s@) <= cap),
{
    let len = s.unicode_len();
    let mut m: usize = 0;
    let mut bytes: usize = 0;
    proof {
        assert(s@.take(0) =~= Seq::<char>::empty());
    }
    while m < len
        invariant
            len == s@.len(),
            m <= len,
            bytes == byte_len(s@.take(m as int)),
            bytes <= cap,
        decreases len - m,
    {
        let cb = char_utf8_len(s.get_char(m));
        proof {
            lemma_byte_len_take_one_more(s@, m as int);
        }
        if cb <= cap - bytes {
            bytes = bytes + cb;
            m = m + 1;
        } else {
            proof {
                lemma_byte_len_take_monotone(s@, m as int + 1, s@.len() as int);
                assert(s@.take(s@.len() as int) =~= s@);
            }
            return false;
        }
    }
    proof {
        assert(s@.take(m as int) =~= s@);
    }
    true
}

/// The character for a decimal digit value.
pub open spec fn dec_digit(d: nat) -> char {
    if d == 0 {
        '0'
    } else if d == 1 {
        '1'
    } else if d == 2 {
        '2'
    } else if d == 3 {
        '3'
    } else if d == 4 {
        '4'
    } else if d == 5 {
        '5'
    } else if d == 6 {
        '6'
    } else if d == 7 {
        '7'
    } else if d == 8 {
        '8'
    } else {
        '9'
    }
}

/// The decimal representation of `n`, most significant digit first.
pub open spec fn dec_rep(n: nat) -> Seq<char>
    decreases n,
{
    if n < 10 {
        seq![dec_digit(n)]
    } else {
        dec_rep(n / 10).push(dec_digit(n % 10))
    }
}

fn push_dec(n: u32, out: &mut String)
    ensures
        final(out)@ == old(out)@ + dec_rep(n as nat),
    decreases n,
{
    if n >= 10 {
        push_dec(n / 10, out);
    }
    let d = (n % 10) as usize;
    let digits = "0123456789";
    proof {
        reveal_strlit("0123456789");
    }
    let ds = digits.substring_char(d, d + 1);
    out.append(ds);
    proof {
        assert(ds@ =~= seq![digits@[d as int]]);
        assert(digits@[d as int] == dec_digit((n % 10) as nat));
        if n < 10 {
            assert(dec_rep(n as nat) =~= seq![dec_digit(n as nat)]);
            assert(old(out)@ + dec_rep(n as nat) =~= out@);
        } else {
            assert(dec_rep(n as nat) == dec_rep(n as nat / 10).push(dec_digit((n % 10) as nat)));
            assert(old(out)@ + dec_rep(n as nat) =~= (old(out)@ + dec_rep((n / 10) as nat)) + seq![
                dec_digit((n % 10) as nat),
            ]);
        }
    }
}

/// Formats `n` in decimal.
pub fn u32_to_string(n: u32) -> (r: String)
    ensures
        r@ == dec_rep(n as nat),
{
    let mut r = String::new();
    push_dec(n, &mut r);
    proof {
        assert(Seq::<char>::empty() + dec_rep(n as nat) =~= dec_rep(n as nat));
    }
    r
}

/// Is `c` one of the characters `'0'` through `'9'`?
pub open spec fn is_dec_digit(c: char) -> bool {
    48 <= c as u32 <= 57
}

/// A non-empty, all-digit string whose value is positive: the form a numeric
/// session-name suffix must have.
pub open spec fn is_positive_int_str(s: Seq<char>) -> bool {
    &&& s.len() > 0
    &&& (forall|i: int| 0 <= i < s.len() ==> is_dec_digit(s[i]))
    &&& (exists|i: int| 0 <= i < s.len() && s[i] != '0')
}

pub fn check_positive_int(s: &str) -> (r: bool)
    ensures
        r == is_positive_int_str(s@),
{
    let len = s.unicode_len();
    if len == 0 {
        return false;
    }
    let mut i: usize = 0;
    let mut nonzero = false;
    while i < len
        invariant
            len == s@.len(),
            i <= len,
            forall|j: int| 0 <= j < i ==> is_dec_digit(s@[j]),
            nonzero == (exists|j: int| 0 <= j < i && s@[j] != '0'),
        decreases len - i,
    {
        let c = s.get_char(i);
        let u = c as u32;
        if u < 48 || u > 57 {
            assert(!is_dec_digit(s@[i as int]));
            return false;
        }
        if c != '0' {
            nonzero = true;
        }
        i = i + 1;
    }
    nonzero
}

/// Lexicographic order on character sequences, by Unicode scalar value.
pub open spec fn lex_lt(a: Seq<char>, b: Seq<char>) -> bool
    decreases a.len(),
{
    if b.len() == 0 {
        false
    } else if a.len() == 0 {
        true
    } else if (a[0] as u32) < (b[0] as u32) {
        true
    } else if (a[0] as u32) > (b[0] as u32) {
        false
    } else {
        lex_lt(a.drop_first(), b.drop_first())
    }
}

pub proof fn lemma_lex_lt_trans(a: Seq<char>, b: Seq<char>, c: Seq<char>)
    requires
        lex_lt(a, b),
        lex_lt(b, c),
    ensures
        lex_lt(a, c),
    decreases a.len(),
{
    if a.len() > 0 && b.len() > 0 && c.len() > 0 && a[0] as u32 == b[0] as u32 && b[0] as u32
        == c[0] as u32 {
        lemma_lex_lt_trans(a.drop_first(), b.drop_first(), c.drop_first());
    }
}

pub proof fn lemma_lex_lt_asym(a: Seq<char>, b: Seq<char>)
    requires
        lex_lt(a, b),
    ensures
        !lex_lt(b, a),
    decreases a.len(),
{
    if a.len() > 0 && b.len() > 0 && a[0] as u32 == b[0] as u32 {
        lemma_lex_lt_asym(a.drop_first(), b.drop_first());
    }
}

pub fn str_lex_lt(a: &str, b: &str) -> (r: bool)
    ensures
        r == lex_lt(a@, b@),
{
    let alen = a.unicode_len();
    let blen = b.unicode_len();
    let mut i: usize = 0;
    proof {
        assert(a@.skip(0) =~= a@);
        assert(b@.skip(0) =~= b@);
    }
    while i < alen && i < blen
        invariant
            alen == a@.len(),
            blen == b@.len(),
            i <= alen,
            i <= blen,
            lex_lt(a@, b@) == lex_lt(a@.skip(i as int), b@.skip(i as int)),
        decreases alen - i,
    {
        let ca = a.get_char(i) as u32;
        let cb = b.get_char(i) as u32;
        proof {
            assert(a@.skip(i as int)[0] == a@[i as int]);
            assert(b@.skip(i as int)[0] == b@[i as int]);
            assert(a@.skip(i as int).drop_first() =~= a@.skip(i as int + 1));
            assert(b@.skip(i as int).drop_first() =~= b@.skip(i as int + 1));
        }
        if ca < cb {
            return true;
        }
        if ca > cb {
            return false;
        }
        i = i + 1;
    }
    proof {
        assert(a@.skip(i as int).len() == alen - i);
        assert(b@.skip(i as int).len() == blen - i);
    }
    alen < blen
}

} // verus!
