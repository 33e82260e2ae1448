//! Ranked directories: parsing the ranking source's `"<score> <path>"` lines,
//! resolving a session name for every directory, and ordering the candidate
//! set by rank (descending) with path ties broken ascending.

use crate::config::Config;
use crate::naming::{ctx_name_spec, opt_view, resolve_names, resolver_segments};
use crate::strutil::{lex_lt, run_len, spec_trim, split_char_spec, str_lex_lt, trim};
use vstd::prelude::*;

verus! {

/// A directory from the ranking source, its rank key, and the session name
/// resolved for it.
pub struct ZoxideDirectory {
    /// An unsigned key that orders exactly as the directory's floating-point
    /// score under total-order comparison: higher key, higher score.
    pub rank_key: u64,
    /// Full directory path.
    pub directory: String,
    /// Generated session name for this directory.
    pub session_name: String,
}

/// The mathematical image of one candidate.
pub struct CandV {
    pub key: u64,
    pub dir: Seq<char>,
    pub name: Seq<char>,
}

impl View for ZoxideDirectory {
    type V = CandV;

    open spec fn view(&self) -> CandV {
        CandV { key: self.rank_key, dir: self.directory@, name: self.session_name@ }
    }
}

/// The views of a candidate sequence.
pub open spec fn views_of(s: Seq<ZoxideDirectory>) -> Seq<CandV> {
    s.map_values(|z: ZoxideDirectory| z@)
}

/// The numeric value of a digit string, most significant digit first.
pub open spec fn digits_val(s: Seq<char>) -> nat
    decreases s.len(),
{
    if s.len() == 0 {
        0
    } else {
        digits_val(s.drop_last()) * 10 + ((s.last() as u32 - 48) as nat)
    }
}

/// The length of the leading run of decimal digits.
pub open spec fn digit_run(s: Seq<char>) -> nat
    decreases s.len(),
{
    if s.len() == 0 || !crate::strutil::is_dec_digit(s[0]) {
        0
    } else {
        1 + digit_run(s.drop_first())
    }
}

proof fn lemma_digit_run_is(s: Seq<char>, k: int)
    requires
        0 <= k <= s.len(),
        forall|j: int| 0 <= j < k ==> crate::strutil::is_dec_digit(s[j]),
        k < s.len() ==> !crate::strutil::is_dec_digit(s[k]),
    ensures
        digit_run(s) == k,
    decreases k,
{
    if k > 0 {
        lemma_digit_run_is(s.drop_first(), k - 1);
    }
}

pub open spec fn pow10(n: nat) -> nat
    decreases n,
{
    if n == 0 {
        1
    } else {
        10 * pow10((n - 1) as nat)
    }
}

proof fn lemma_digits_val_bound(s: Seq<char>)
    requires
        forall|j: int| 0 <= j < s.len() ==> crate::strutil::is_dec_digit(#[trigger] s[j]),
    ensures
        digits_val(s) < pow10(s.len()),
    decreases s.len(),
{
    if s.len() > 0 {
        lemma_digits_val_bound(s.drop_last());
    }
}

/// The value of a fraction-digit string read to nine places: shorter strings
/// count as zero-padded, digits past the ninth are ignored.
pub open spec fn frac9_val(s: Seq<char>) -> nat {
    if s.len() >= 9 {
        digits_val(s.take(9))
    } else {
        digits_val(s) * pow10((9 - s.len()) as nat)
    }
}

/// The cap on a score's integer part; larger scores all rank at the top.
pub open spec fn spec_int_cap() -> nat {
    4_000_000_000
}

/// The rank value of a score: the integer part (capped) scaled to nine
/// fraction places, plus the fraction read to nine places.
pub open spec fn score_val(ints: Seq<char>, frac: Seq<char>) -> nat {
    if digits_val(ints) > spec_int_cap() {
        4_000_000_000_000_000_000
    } else {
        digits_val(ints) * 1_000_000_000 + frac9_val(frac)
    }
}

/// The order key of a score token. A token is an optional sign followed by a
/// plain decimal number: digits with an optional point and fraction, with at
/// least one digit in all. Anything else (including exponent forms) is
/// rejected and its line dropped. Keys order as the decimal values do, read
/// to nine fraction places, with magnitudes capped far beyond any real score.
pub open spec fn score_key_of(tok: Seq<char>) -> Option<u64> {
    let neg = tok.len() > 0 && tok[0] == '-';
    let body = if tok.len() > 0 && (tok[0] == '-' || tok[0] == '+') {
        tok.drop_first()
    } else {
        tok
    };
    let k = digit_run(body) as int;
    let ints = body.take(k);
    let after = body.skip(k);
    let valid = (after.len() == 0 && k > 0) || (after.len() >= 1 && after[0] == '.' && digit_run(
        after.drop_first(),
    ) == after.len() - 1 && (k > 0 || after.len() >= 2));
    if !valid {
        None
    } else {
        let frac = if after.len() >= 1 {
            after.drop_first()
        } else {
            Seq::empty()
        };
        let v = score_val(ints, frac);
        Some(
            (if neg {
                0x8000_0000_0000_0000int - v
            } else {
                0x8000_0000_0000_0000int + v
            }) as u64,
        )
    }
}

/// Parses a score token to its order key; `None` for a malformed token.
#[verifier::rlimit(50)]
fn parse_score(tok: &str) -> (r: Option<u64>)
    ensures
        r == score_key_of(tok@),
{
    let len = tok.unicode_len();
    let mut i: usize = 0;
    let mut neg = false;
    if len > 0 {
        let c0 = tok.get_char(0);
        if c0 == '-' {
            neg = true;
            i = 1;
        } else if c0 == '+' {
            i = 1;
        }
    }
    let ghost body = if tok@.len() > 0 && (tok@[0] == '-' || tok@[0] == '+') {
        tok@.drop_first()
    } else {
        tok@
    };
    proof {
        assert(body =~= tok@.skip(i as int));
    }
    // integer part
    let start = i;
    let mut iv: u64 = 0;
    let mut over = false;
    let mut int_done = false;
    while i < len && !int_done
        invariant
            len == tok@.len(),
            start <= i <= len,
            body == tok@.skip(start as int),
            forall|j: int| start <= j < i ==> crate::strutil::is_dec_digit(tok@[j]),
            !over ==> iv as nat == digits_val(tok@.subrange(start as int, i as int)) && iv
                <= 4_000_000_000,
            over ==> digits_val(tok@.subrange(start as int, i as int)) > 4_000_000_000,
            int_done ==> i < len && !crate::strutil::is_dec_digit(tok@[i as int]),
        decreases len - i, (if int_done { 0int } else { 1int }),
    {
        let cu = tok.get_char(i) as u32;
        if cu < 48 || cu > 57 {
            int_done = true;
            continue ;
        }
        let d = (cu - 48) as u64;
        proof {
            assert(tok@.subrange(start as int, i as int + 1).drop_last() =~= tok@.subrange(
                start as int,
                i as int,
            ));
            assert(tok@.subrange(start as int, i as int + 1).last() == tok@[i as int]);
        }
        if over {
        } else if iv > 400_000_000 || (iv == 400_000_000 && d > 0) {
            over = true;
            proof {
                assert(digits_val(tok@.subrange(start as int, i as int + 1)) == iv as nat * 10
                    + d as nat);
            }
        } else {
            iv = iv * 10 + d;
        }
        i = i + 1;
    }
    let k = i - start;
    let ghost ints = body.take(k as int);
    let ghost after = body.skip(k as int);
    proof {
        assert forall|j: int| 0 <= j < k implies crate::strutil::is_dec_digit(body[j]) by {
            assert(body[j] == tok@[start + j]);
        }
        if (k as int) < body.len() {
            assert(body[k as int] == tok@[i as int]);
        }
        lemma_digit_run_is(body, k as int);
        assert(ints =~= tok@.subrange(start as int, i as int));
        assert(after =~= tok@.skip(i as int));
    }
    // fraction part
    let mut fv: u64 = 0;
    let mut fcount: usize = 0;
    let ghost frac = if after.len() >= 1 {
        after.drop_first()
    } else {
        Seq::<char>::empty()
    };
    if i == len {
        if k == 0 {
            return None;
        }
    } else {
        if tok.get_char(i) != '.' {
            proof {
                assert(after[0] == tok@[i as int]);
            }
            return None;
        }
        if k == 0 && i + 1 == len {
            proof {
                assert(after.len() == 1);
            }
            return None;
        }
        let fstart = i + 1;
        let mut p = fstart;
        let mut bad = false;
        proof {
            assert(frac =~= tok@.skip(fstart as int));
            assert(frac.take(0) =~= Seq::<char>::empty());
            lemma_pow10_values();
        }
        while p < len && !bad
            invariant
                len == tok@.len(),
                fstart <= p <= len,
                frac == tok@.skip(fstart as int),
                forall|j: int| 0 <= j < p - fstart ==> crate::strutil::is_dec_digit(
                    #[trigger] frac[j],
                ),
                fcount == if p - fstart <= 9 {
                    p - fstart
                } else {
                    9
                },
                fv as nat == digits_val(frac.take(fcount as int)),
                (fv as nat) < pow10(fcount as nat),
                fcount <= 9,
                bad ==> p < len && !crate::strutil::is_dec_digit(frac[p - fstart]),
            decreases len - p, (if bad { 0int } else { 1int }),
        {
            let c = tok.get_char(p);
            let u = c as u32;
            proof {
                assert(frac[p - fstart] == tok@[p as int]);
            }
            if u < 48 || u > 57 {
                bad = true;
            } else {
                if fcount < 9 {
                    proof {
                        assert(frac.take(fcount as int + 1).drop_last() =~= frac.take(
                            fcount as int,
                        ));
                        assert(frac.take(fcount as int + 1).last() == frac[fcount as int]);
                        assert(frac[fcount as int] == tok@[p as int]);
                        lemma_pow10_values();
                        lemma_pow10_mono(fcount as nat + 1, 9);
                    }
                    fv = fv * 10 + ((u - 48) as u64);
                    fcount = fcount + 1;
                }
                p = p + 1;
            }
        }
        if bad {
            proof {
                lemma_digit_run_is(frac, p - fstart);
            }
            return None;
        }
        proof {
            lemma_digit_run_is(frac, frac.len() as int);
        }
    }
    // validity established; pad the fraction to nine places
    proof {
        if i == len {
            assert(after.len() == 0);
            assert(frac =~= Seq::<char>::empty());
            assert(frac.take(0) =~= Seq::<char>::empty());
        }
    }
    let mut pad = fcount;
    proof {
        lemma_pow10_values();
        assert(fv as nat == digits_val(frac.take(fcount as int)) * pow10(0));
    }
    while pad < 9
        invariant
            fcount <= 9,
            fcount <= pad <= 9,
            fcount as int == if frac.len() <= 9 {
                frac.len() as int
            } else {
                9
            },
            fv as nat == digits_val(frac.take(fcount as int)) * pow10((pad - fcount) as nat),
            (fv as nat) < pow10(pad as nat),
        decreases 9 - pad,
    {
        proof {
            lemma_pow10_values();
            lemma_pow10_mono(pad as nat + 1, 9);
            let x = digits_val(frac.take(fcount as int));
            let e = (pad - fcount) as nat;
            assert(pow10(e + 1) == 10 * pow10(e));
            assert(x * (10 * pow10(e)) == (x * pow10(e)) * 10) by (nonlinear_arith);
        }
        fv = fv * 10;
        pad = pad + 1;
    }
    proof {
        lemma_pow10_values();
        if frac.len() >= 9 {
            assert(fcount as int == 9);
            assert(fv as nat == digits_val(frac.take(9)) * pow10(0));
            assert(fv as nat == frac9_val(frac));
        } else {
            assert(frac.take(fcount as int) =~= frac);
            assert(fv as nat == frac9_val(frac));
        }
    }
    // assemble the key
    let v: u64 = if over {
        4_000_000_000_000_000_000
    } else {
        iv * 1_000_000_000 + fv
    };
    proof {
        assert(v as nat == score_val(ints, frac));
    }
    let key: u64 = if neg {
        0x8000_0000_0000_0000u64 - v
    } else {
        0x8000_0000_0000_0000u64 + v
    };
    Some(key)
}

proof fn lemma_pow10_values()
    ensures
        pow10(0) == 1,
        pow10(1) == 10,
        pow10(2) == 100,
        pow10(3) == 1000,
        pow10(4) == 10_000,
        pow10(5) == 100_000,
        pow10(6) == 1_000_000,
        pow10(7) == 10_000_000,
        pow10(8) == 100_000_000,
        pow10(9) == 1_000_000_000,
{
    assert(pow10(0) == 1);
    assert(pow10(1) == 10);
    assert(pow10(2) == 100);
    assert(pow10(3) == 1000);
    assert(pow10(4) == 10_000);
    assert(pow10(5) == 100_000);
    assert(pow10(6) == 1_000_000);
    assert(pow10(7) == 10_000_000);
    assert(pow10(8) == 100_000_000);
    assert(pow10(9) == 1_000_000_000);
}

proof fn lemma_pow10_mono(a: nat, b: nat)
    requires
        a <= b,
    ensures
        pow10(a) <= pow10(b),
    decreases b,
{
    if a < b {
        lemma_pow10_mono(a, (b - 1) as nat);
    }
}


/// One line split into its score token and path: the line is trimmed, the
/// first space separates the two, and the path keeps any further spaces.
/// Lines without both parts are dropped.
pub open spec fn line_split(line: Seq<char>) -> Option<(Seq<char>, Seq<char>)> {
    let t = spec_trim(line);
    let k = run_len(t, ' ') as int;
    if t.len() == 0 || k == t.len() {
        None
    } else {
        Some((t.take(k), t.skip(k + 1)))
    }
}

/// The rank key and path of one line, `None` for a line that is dropped
/// (blank, one token only, or a non-numeric score).
pub open spec fn parse_line_spec(line: Seq<char>) -> Option<(u64, Seq<char>)> {
    match line_split(line) {
        None => None,
        Some((tok, path)) => match score_key_of(tok) {
            Some(key) => Some((key, path)),
            None => None,
        },
    }
}

/// The candidates parsed from the lines, in input order, dropped lines
/// skipped silently.
pub open spec fn parse_lines(lines: Seq<Seq<char>>) -> Seq<(u64, Seq<char>)>
    decreases lines.len(),
{
    if lines.len() == 0 {
        seq![]
    } else {
        (match parse_line_spec(lines[0]) {
            Some(p) => seq![p],
            None => Seq::empty(),
        }) + parse_lines(lines.drop_first())
    }
}

/// Parses one line of ranking-source output.
fn parse_zoxide_line(line: &str) -> (r: Option<(u64, String)>)
    ensures
        match r {
            Some((key, path)) => parse_line_spec(line@) == Some((key, path@)),
            None => parse_line_spec(line@) is None,
        },
{
    let t = trim(line);
    let tlen = t.as_str().unicode_len();
    if tlen == 0 {
        return None;
    }
    let mut k: usize = 0;
    while k < tlen && t.as_str().get_char(k) != ' '
        invariant
            tlen == t@.len(),
            k <= tlen,
            forall|j: int| 0 <= j < k ==> t@[j] != ' ',
        decreases tlen - k,
    {
        k = k + 1;
    }
    proof {
        crate::strutil::lemma_run_len_is(t@, ' ', k as int);
    }
    if k == tlen {
        return None;
    }
    let tok = t.as_str().substring_char(0, k);
    proof {
        assert(tok@ =~= t@.take(k as int));
    }
    match parse_score(tok) {
        Some(key) => {
            let path = t.as_str().substring_char(k + 1, tlen);
            proof {
                assert(path@ =~= t@.skip(k as int + 1));
            }
            Some((key, path.to_owned()))
        },
        None => None,
    }
}

/// Does `a` sort strictly before `b`: a higher rank key first, equal keys by
/// path ascending?
pub open spec fn cand_before(a: CandV, b: CandV) -> bool {
    a.key > b.key || (a.key == b.key && lex_lt(a.dir, b.dir))
}

/// `x` placed into the sorted sequence `s`, after any element it does not
/// strictly precede (so equal elements keep their encounter order).
pub open spec fn insert_cand(x: CandV, s: Seq<CandV>) -> Seq<CandV>
    decreases s.len(),
{
    if s.len() == 0 {
        seq![x]
    } else if cand_before(x, s[0]) {
        seq![x] + s
    } else {
        seq![s[0]] + insert_cand(x, s.drop_first())
    }
}

/// Stable insertion sort by `cand_before`.
pub open spec fn sort_cands(s: Seq<CandV>) -> Seq<CandV>
    decreases s.len(),
{
    if s.len() == 0 {
        seq![]
    } else {
        insert_cand(s.last(), sort_cands(s.drop_last()))
    }
}

/// Is the candidate sequence in display order: no later entry strictly
/// precedes an earlier one?
pub open spec fn sorted_cands(r: Seq<CandV>) -> bool {
    forall|i: int, j: int| 0 <= i < j < r.len() ==> !cand_before(#[trigger] r[j], #[trigger] r[i])
}

proof fn lemma_cand_before_trans(a: CandV, b: CandV, c: CandV)
    requires
        cand_before(a, b),
        cand_before(b, c),
    ensures
        cand_before(a, c),
{
    if a.key == b.key && b.key == c.key {
        crate::strutil::lemma_lex_lt_trans(a.dir, b.dir, c.dir);
    }
}

proof fn lemma_cand_before_asym(a: CandV, b: CandV)
    requires
        cand_before(a, b),
    ensures
        !cand_before(b, a),
{
    if a.key == b.key {
        crate::strutil::lemma_lex_lt_asym(a.dir, b.dir);
    }
}

proof fn lemma_insert_lower_bound(x: CandV, s: Seq<CandV>, b: CandV)
    requires
        !cand_before(x, b),
        forall|u: int| 0 <= u < s.len() ==> !cand_before(#[trigger] s[u], b),
    ensures
        forall|k: int|
            0 <= k < insert_cand(x, s).len() ==> !cand_before(#[trigger] insert_cand(x, s)[k], b),
    decreases s.len(),
{
    if s.len() > 0 && !cand_before(x, s[0]) {
        assert forall|u: int| 0 <= u < s.drop_first().len() implies !cand_before(
            #[trigger] s.drop_first()[u],
            b,
        ) by {
            assert(s.drop_first()[u] == s[u + 1]);
        }
        lemma_insert_lower_bound(x, s.drop_first(), b);
        assert forall|k: int| 0 <= k < insert_cand(x, s).len() implies !cand_before(
            #[trigger] insert_cand(x, s)[k],
            b,
        ) by {
            if k > 0 {
                assert(insert_cand(x, s)[k] == insert_cand(x, s.drop_first())[k - 1]);
            }
        }
    }
}

proof fn lemma_insert_cand_sorted(x: CandV, s: Seq<CandV>)
    requires
        sorted_cands(s),
    ensures
        sorted_cands(insert_cand(x, s)),
        insert_cand(x, s).len() == s.len() + 1,
    decreases s.len(),
{
    if s.len() == 0 {
    } else if cand_before(x, s[0]) {
        let r = seq![x] + s;
        assert forall|i: int, j: int| 0 <= i < j < r.len() implies !cand_before(
            #[trigger] r[j],
            #[trigger] r[i],
        ) by {
            if i == 0 {
                if cand_before(r[j], x) {
                    lemma_cand_before_trans(r[j], x, s[0]);
                    if j > 1 {
                        assert(r[j] == s[j - 1]);
                        assert(!cand_before(s[j - 1], s[0]));
                    } else {
                        lemma_cand_before_asym(x, s[0]);
                    }
                }
            } else {
                assert(r[i] == s[i - 1] && r[j] == s[j - 1]);
            }
        }
    } else {
        let rest = s.drop_first();
        assert forall|i: int, j: int| 0 <= i < j < rest.len() implies !cand_before(
            #[trigger] rest[j],
            #[trigger] rest[i],
        ) by {
            assert(rest[i] == s[i + 1] && rest[j] == s[j + 1]);
        }
        lemma_insert_cand_sorted(x, rest);
        assert forall|u: int| 0 <= u < rest.len() implies !cand_before(
            #[trigger] rest[u],
            s[0],
        ) by {
            assert(rest[u] == s[u + 1]);
        }
        lemma_insert_lower_bound(x, rest, s[0]);
        let r = seq![s[0]] + insert_cand(x, rest);
        assert forall|i: int, j: int| 0 <= i < j < r.len() implies !cand_before(
            #[trigger] r[j],
            #[trigger] r[i],
        ) by {
            if i == 0 {
                assert(r[j] == insert_cand(x, rest)[j - 1]);
            } else {
                assert(r[i] == insert_cand(x, rest)[i - 1]);
                assert(r[j] == insert_cand(x, rest)[j - 1]);
            }
        }
    }
}

/// The candidate order is genuinely sorted: rank keys descending, path ties
/// ascending, so no entry strictly precedes an earlier one.
pub proof fn lemma_sort_cands_sorted(s: Seq<CandV>)
    ensures
        sorted_cands(sort_cands(s)),
        sort_cands(s).len() == s.len(),
    decreases s.len(),
{
    if s.len() > 0 {
        lemma_sort_cands_sorted(s.drop_last());
        lemma_insert_cand_sorted(s.last(), sort_cands(s.drop_last()));
    }
}

proof fn lemma_insert_cand_multiset(x: CandV, s: Seq<CandV>)
    ensures
        insert_cand(x, s).to_multiset() == s.to_multiset().insert(x),
    decreases s.len(),
{
    broadcast use vstd::seq_lib::to_multiset_insert;
    broadcast use vstd::multiset::group_multiset_axioms;

    if s.len() == 0 {
        assert(seq![x] =~= s.insert(0, x));
    } else if cand_before(x, s[0]) {
        assert(seq![x] + s =~= s.insert(0, x));
    } else {
        let rest = s.drop_first();
        lemma_insert_cand_multiset(x, rest);
        let t = insert_cand(x, rest);
        assert(seq![s[0]] + t =~= t.insert(0, s[0]));
        assert(s =~= rest.insert(0, s[0]));
        assert(insert_cand(x, s).to_multiset() == rest.to_multiset().insert(x).insert(s[0]));
        assert(s.to_multiset().insert(x) == rest.to_multiset().insert(s[0]).insert(x));
        assert(rest.to_multiset().insert(x).insert(s[0]) =~= rest.to_multiset().insert(
            s[0],
        ).insert(x));
    }
}

/// The ordering loses and invents nothing: the sorted candidates are a
/// permutation of the input.
pub proof fn lemma_sort_cands_permutes(s: Seq<CandV>)
    ensures
        sort_cands(s).to_multiset() == s.to_multiset(),
    decreases s.len(),
{
    if s.len() > 0 {
        lemma_sort_cands_permutes(s.drop_last());
        lemma_insert_cand_multiset(s.last(), sort_cands(s.drop_last()));
        s.drop_last().to_multiset_ensures();
        assert(s.drop_last().push(s.last()).to_multiset() =~= s.drop_last().to_multiset().insert(
            s.last(),
        ));
        assert(s.drop_last().push(s.last()) =~= s);
        assert(s.to_multiset() == s.drop_last().push(s.last()).to_multiset());
        assert(sort_cands(s).to_multiset() == s.drop_last().to_multiset().insert(s.last()));
    } else {
        assert(sort_cands(s) =~= s);
    }
}

proof fn lemma_insert_at(x: CandV, s: Seq<CandV>, j: int)
    requires
        0 <= j <= s.len(),
        forall|u: int| 0 <= u < j ==> !cand_before(x, #[trigger] s[u]),
        j < s.len() ==> cand_before(x, s[j]),
    ensures
        insert_cand(x, s) == s.take(j) + seq![x] + s.skip(j),
    decreases s.len(),
{
    if s.len() == 0 {
        assert(s.take(0) + seq![x] + s.skip(0) =~= seq![x]);
    } else if j == 0 {
        assert(s.take(0) + seq![x] + s.skip(0) =~= seq![x] + s);
    } else {
        lemma_insert_at(x, s.drop_first(), j - 1);
        assert(s.drop_first().take(j - 1) =~= s.take(j).drop_first());
        assert(s.drop_first().skip(j - 1) =~= s.skip(j));
        assert(seq![s[0]] + (s.drop_first().take(j - 1) + seq![x] + s.drop_first().skip(j - 1))
            =~= s.take(j) + seq![x] + s.skip(j));
    }
}

fn insert_sorted(dirs: &mut Vec<ZoxideDirectory>, x: ZoxideDirectory)
    ensures
        views_of(final(dirs)@) == insert_cand(x@, views_of(old(dirs)@)),
{
    let n = dirs.len();
    let mut j: usize = 0;
    let mut found = false;
    while j < n && !found
        invariant
            n == dirs@.len(),
            dirs@ == old(dirs)@,
            j <= n,
            forall|u: int| 0 <= u < j ==> !cand_before(x@, #[trigger] views_of(dirs@)[u]),
            found ==> j < n && cand_before(x@, views_of(dirs@)[j as int]),
        decreases n - j, (if found { 0int } else { 1int }),
    {
        let before = if x.rank_key > dirs[j].rank_key {
            true
        } else if x.rank_key == dirs[j].rank_key {
            str_lex_lt(x.directory.as_str(), dirs[j].directory.as_str())
        } else {
            false
        };
        proof {
            assert(before == cand_before(x@, views_of(dirs@)[j as int]));
        }
        if before {
            found = true;
        } else {
            j = j + 1;
        }
    }
    proof {
        lemma_insert_at(x@, views_of(dirs@), j as int);
    }
    let ghost pre = dirs@;
    dirs.insert(j, x);
    proof {
        assert(views_of(dirs@) =~= views_of(pre).take(j as int) + seq![x@] + views_of(
            pre,
        ).skip(j as int));
    }
}

/// Sorts the candidates by descending rank, path ties ascending, keeping the
/// encounter order of fully tied entries.
fn sort_candidates(input: Vec<ZoxideDirectory>) -> (r: Vec<ZoxideDirectory>)
    ensures
        views_of(r@) == sort_cands(views_of(input@)),
{
    let ghost orig = input@;
    let mut rest = input;
    let mut out: Vec<ZoxideDirectory> = Vec::new();
    proof {
        assert(views_of(out@) =~= Seq::<CandV>::empty());
        assert(views_of(orig.take(0)) =~= Seq::<CandV>::empty());
        assert(sort_cands(views_of(orig.take(0))) =~= Seq::<CandV>::empty());
        assert(orig.skip(0) =~= orig);
    }
    while rest.len() > 0
        invariant
            rest@.len() <= orig.len(),
            rest@ == orig.skip(orig.len() - rest@.len()),
            views_of(out@) == sort_cands(views_of(orig.take(orig.len() - rest@.len()))),
        decreases rest@.len(),
    {
        let ghost done = orig.len() - rest@.len();
        let ghost pre_rest = rest@;
        let x = rest.remove(0);
        proof {
            assert(pre_rest == orig.skip(done));
            assert(rest@ =~= orig.skip(done + 1)) by {
                assert(rest@ == pre_rest.remove(0));
                assert(pre_rest.remove(0) =~= orig.skip(done + 1));
            }
            assert(x == pre_rest[0]);
            assert(x == orig[done]);
        }
        insert_sorted(&mut out, x);
        proof {
            let t1 = views_of(orig.take(done + 1));
            assert(orig.take(done + 1).drop_last() =~= orig.take(done));
            assert(views_of(orig.take(done + 1)).drop_last() =~= views_of(orig.take(done)));
            assert(views_of(orig.take(done + 1)).last() == x@);
            assert(sort_cands(t1) == insert_cand(x@, sort_cands(views_of(orig.take(done)))));
        }
    }
    proof {
        assert(orig.take(orig.len() as int) =~= orig);
    }
    out
}

/// The fully processed candidate set for one ranking-source output: each
/// parsed line, its resolved session name, before sorting.
pub open spec fn named_candidates(
    out: Seq<char>,
    bps: Seq<Seq<char>>,
    home: Option<Seq<char>>,
    sep: Seq<char>,
) -> Seq<CandV> {
    let ps = parse_lines(split_char_spec(out, '\n'));
    let segs = resolver_segments(ps.map_values(|p: (u64, Seq<char>)| p.1), bps, home);
    Seq::new(ps.len(), |i: int| CandV { key: ps[i].0, dir: ps[i].1, name: ctx_name_spec(i, segs, sep) })
}

/// Turns raw ranking-source output into the named, ordered candidate set:
/// malformed lines are dropped, every directory gets a resolved session name,
/// and the set is sorted by rank descending with path ties ascending.
pub fn process_zoxide_output(out: &str, config: &Config, home: &Option<String>) -> (dirs: Vec<
    ZoxideDirectory,
>)
    ensures
        views_of(dirs@) == sort_cands(
            named_candidates(
                out@,
                config.base_paths.deep_view(),
                opt_view(*home),
                config.session_separator@,
            ),
        ),
{
    let lines = crate::strutil::split_on_char(out, '\n');
    let ghost ldv = lines.deep_view();
    let nl = lines.len();
    let mut keys: Vec<u64> = Vec::new();
    let mut paths: Vec<String> = Vec::new();
    let ghost ps = parse_lines(ldv);
    let mut i: usize = 0;
    proof {
        assert(ldv.skip(0) =~= ldv);
        assert(keys@ + Seq::<u64>::empty() =~= keys@);
    }
    while i < nl
        invariant
            nl == lines.len(),
            ldv == lines.deep_view(),
            ps == parse_lines(ldv),
            i <= nl,
            keys@.len() == paths@.len(),
            keys@.len() <= i,
            Seq::new(keys@.len(), |u: int| (keys@[u], paths@[u]@)) + parse_lines(
                ldv.skip(i as int),
            ) =~= ps,
        decreases nl - i,
    {
        proof {
            assert(ldv.skip(i as int)[0] == ldv[i as int]);
            assert(ldv.skip(i as int).drop_first() =~= ldv.skip(i as int + 1));
        }
        match parse_zoxide_line(lines[i].as_str()) {
            Some((key, path)) => {
                let ghost pk = keys@;
                let ghost pp = paths@;
                keys.push(key);
                paths.push(path);
                proof {
                    let cur = Seq::new(keys@.len(), |u: int| (keys@[u], paths@[u]@));
                    let prev = Seq::new(pk.len(), |u: int| (pk[u], pp[u]@));
                    assert(cur =~= prev + seq![(key, paths@[pk.len() as int]@)]);
                    assert((prev + seq![ps[pk.len() as int]]) + parse_lines(ldv.skip(i as int + 1))
                        =~= prev + (seq![ps[pk.len() as int]] + parse_lines(
                        ldv.skip(i as int + 1),
                    )));
                }
            },
            None => {},
        }
        i = i + 1;
    }
    proof {
        assert(ldv.skip(nl as int) =~= Seq::<Seq<char>>::empty());
        assert(parse_lines(ldv.skip(nl as int)) =~= Seq::<(u64, Seq<char>)>::empty());
        assert(Seq::new(keys@.len(), |u: int| (keys@[u], paths@[u]@)) + Seq::<(
            u64,
            Seq<char>,
        )>::empty() =~= Seq::new(keys@.len(), |u: int| (keys@[u], paths@[u]@)));
        assert(Seq::new(keys@.len(), |u: int| (keys@[u], paths@[u]@)) =~= ps);
        assert(paths.deep_view() =~= ps.map_values(|p: (u64, Seq<char>)| p.1));
    }
    let names = resolve_names(&paths, config, home);
    let n = paths.len();
    let mut rest_keys = keys;
    let mut rest_paths = paths;
    let mut rest_names = names;
    let mut cands: Vec<ZoxideDirectory> = Vec::new();
    let ghost named = named_candidates(
        out@,
        config.base_paths.deep_view(),
        opt_view(*home),
        config.session_separator@,
    );
    let mut i: usize = 0;
    proof {
        assert(named.len() == ps.len());
        assert(n as int == ps.len());
        let segs = resolver_segments(
            ps.map_values(|p: (u64, Seq<char>)| p.1),
            config.base_paths.deep_view(),
            opt_view(*home),
        );
        assert forall|u: int| 0 <= u < n implies #[trigger] named[0 + u] == (CandV {
            key: rest_keys@[u],
            dir: rest_paths@[u]@,
            name: rest_names@[u]@,
        }) by {
            assert(named[u].key == ps[u].0);
            assert(named[u].dir == ps[u].1);
            assert(named[u].name == ctx_name_spec(u, segs, config.session_separator@));
            assert(ps[u].0 == rest_keys@[u]);
            assert(ps[u].1 == rest_paths@[u]@);
            assert(rest_names@[u]@ == rest_names.deep_view()[u]);
        }
    }
    while i < n
        invariant
            i <= n,
            rest_keys@.len() == n - i,
            rest_paths@.len() == n - i,
            rest_names@.len() == n - i,
            named.len() == n as int,
            cands@.len() == i,
            forall|u: int| 0 <= u < i ==> views_of(cands@)[u] == named[u],
            forall|u: int| 0 <= u < n - i ==> #[trigger] named[i + u] == (CandV {
                key: rest_keys@[u],
                dir: rest_paths@[u]@,
                name: rest_names@[u]@,
            }),
        decreases n - i,
    {
        let ghost pk = rest_keys@;
        let ghost pp = rest_paths@;
        let ghost pn = rest_names@;
        let key = rest_keys.remove(0);
        let path = rest_paths.remove(0);
        let name = rest_names.remove(0);
        proof {
            assert(rest_keys@ =~= pk.drop_first());
            assert(rest_paths@ =~= pp.drop_first());
            assert(rest_names@ =~= pn.drop_first());
        }
        let ghost pre = cands@;
        cands.push(ZoxideDirectory { rank_key: key, directory: path, session_name: name });
        proof {
            assert(views_of(cands@) =~= views_of(pre).push(cands@[i as int]@));
            assert(cands@[i as int]@ == (CandV { key: pk[0], dir: pp[0]@, name: pn[0]@ }));
            let u0: int = 0;
            assert(named[i as int + u0] == (CandV { key: pk[u0], dir: pp[u0]@, name: pn[u0]@ }));
            assert(named[i as int] == (CandV { key: pk[0], dir: pp[0]@, name: pn[0]@ }));
            assert(views_of(cands@)[i as int] == named[i as int]);
            assert forall|u: int| 0 <= u < n - (i + 1) implies #[trigger] named[(i + 1) + u] == (
            CandV { key: rest_keys@[u], dir: rest_paths@[u]@, name: rest_names@[u]@ }) by {
                assert(named[i + (u + 1)] == (CandV {
                    key: pk[u + 1],
                    dir: pp[u + 1]@,
                    name: pn[u + 1]@,
                }));
                assert(rest_keys@[u] == pk[u + 1]);
                assert(rest_paths@[u] == pp[u + 1]);
                assert(rest_names@[u] == pn[u + 1]);
            }
        }
        i = i + 1;
    }
    proof {
        assert(views_of(cands@) =~= named);
    }
    sort_candidates(cands)
}

} // verus!
