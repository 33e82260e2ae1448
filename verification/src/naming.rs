//! Smart session naming: normalizing paths against configured base paths (or
//! the home directory), abbreviating path segments, and resolving a short,
//! unique, length-bounded name for every ranked directory.

use crate::strutil::{
    byte_len, join, spec_starts_with, spec_truncate_bytes, str_contains_char, str_eq,
    str_starts_with, truncate_to_bytes,
};
use vstd::prelude::*;

verus! {

/// The byte budget for generated session names: the session identifier shares
/// a 108-byte socket-path budget with a host directory of unknown length, so
/// only a conservative reservation is safe.
pub const NAME_BUDGET: usize = 29;

/// `b` with all trailing `'/'` characters removed.
pub open spec fn trim_slashes(b: Seq<char>) -> Seq<char>
    decreases b.len(),
{
    if b.len() > 0 && b[b.len() - 1] == '/' {
        trim_slashes(b.drop_last())
    } else {
        b
    }
}

proof fn lemma_trim_slashes_take(s: Seq<char>, b: int)
    requires
        0 <= b <= s.len(),
        forall|j: int| b <= j < s.len() ==> s[j] == '/',
        b > 0 ==> s[b - 1] != '/',
    ensures
        trim_slashes(s) == s.take(b),
    decreases s.len() - b,
{
    if b == s.len() {
        assert(s.take(b) =~= s);
    } else {
        lemma_trim_slashes_take(s.drop_last(), b);
        assert(s.drop_last().take(b) =~= s.take(b));
    }
}

fn trim_slashes_exec(s: &str) -> (r: String)
    ensures
        r@ == trim_slashes(s@),
{
    let len = s.unicode_len();
    let mut b: usize = len;
    while b > 0 && s.get_char(b - 1) == '/'
        invariant
            len == s@.len(),
            b <= len,
            forall|j: int| b <= j < len ==> s@[j] == '/',
        decreases b,
    {
        b = b - 1;
    }
    proof {
        lemma_trim_slashes_take(s@, b as int);
    }
    let r = s.substring_char(0, b);
    proof {
        assert(r@ =~= s@.take(b as int));
    }
    r.to_owned()
}

/// Does `path` start with the prefix `b` at a path-component boundary?
pub open spec fn base_matches(path: Seq<char>, b: Seq<char>) -> bool {
    spec_starts_with(path, b) && (path.len() == b.len() || path[b.len() as int] == '/')
}

fn base_matches_exec(path: &str, b: &str) -> (r: bool)
    ensures
        r == base_matches(path@, b@),
{
    if !str_starts_with(path, b) {
        return false;
    }
    let plen = path.unicode_len();
    let blen = b.unicode_len();
    if plen == blen {
        true
    } else {
        path.get_char(blen) == '/'
    }
}

/// The matching base path that wins: scanning left to right, the first one
/// (after trailing-slash trimming) of maximal length.
pub open spec fn pick_base(path: Seq<char>, bps: Seq<Seq<char>>) -> Option<Seq<char>>
    decreases bps.len(),
{
    if bps.len() == 0 {
        None
    } else {
        let prev = pick_base(path, bps.drop_last());
        let b = trim_slashes(bps.last());
        if base_matches(path, b) && (prev is None || b.len() > prev.unwrap().len()) {
            Some(b)
        } else {
            prev
        }
    }
}

pub proof fn lemma_pick_base_matches(path: Seq<char>, bps: Seq<Seq<char>>)
    ensures
        match pick_base(path, bps) {
            Some(b) => base_matches(path, b),
            None => true,
        },
    decreases bps.len(),
{
    if bps.len() > 0 {
        lemma_pick_base_matches(path, bps.drop_last());
    }
}

/// `path` with the prefix `b` and one following `'/'` removed.
pub open spec fn strip_prefix_slash(path: Seq<char>, b: Seq<char>) -> Seq<char> {
    let rest = path.skip(b.len() as int);
    if rest.len() > 0 && rest[0] == '/' {
        rest.drop_first()
    } else {
        rest
    }
}

/// Strips a matching base, falling back to the whole path rather than ever
/// producing an empty name.
pub open spec fn strip_base(path: Seq<char>, b: Seq<char>) -> Seq<char> {
    if path.len() == b.len() {
        path
    } else {
        let stripped = strip_prefix_slash(path, b);
        if stripped.len() > 0 {
            stripped
        } else {
            path
        }
    }
}

/// The relative path used for all naming decisions: the longest configured
/// base path is stripped at a component boundary; with no base paths
/// configured, the home directory is stripped instead; otherwise the path is
/// returned unchanged.
pub open spec fn normalize_spec(
    path: Seq<char>,
    bps: Seq<Seq<char>>,
    home: Option<Seq<char>>,
) -> Seq<char> {
    if bps.len() > 0 {
        match pick_base(path, bps) {
            Some(b) => strip_base(path, b),
            None => path,
        }
    } else {
        match home {
            Some(h0) => {
                let h = trim_slashes(h0);
                if base_matches(path, h) && path.len() > h.len() {
                    strip_base(path, h)
                } else {
                    path
                }
            },
            None => path,
        }
    }
}

/// The view of an optional owned string.
pub open spec fn opt_view(o: Option<String>) -> Option<Seq<char>> {
    match o {
        Some(s) => Some(s@),
        None => None,
    }
}

fn strip_base_exec(path: &str, b_trimmed: &str) -> (r: String)
    requires
        base_matches(path@, b_trimmed@),
    ensures
        r@ == strip_base(path@, b_trimmed@),
{
    let plen = path.unicode_len();
    let blen = b_trimmed.unicode_len();
    if plen == blen {
        return path.to_owned();
    }
    let mut start = blen;
    if path.get_char(start) == '/' {
        start = start + 1;
    }
    proof {
        let rest = path@.skip(blen as int);
        assert(rest[0] == path@[blen as int]);
        if rest[0] == '/' {
            assert(rest.drop_first() =~= path@.skip(blen as int + 1));
        }
    }
    if start == plen {
        // stripping left nothing: fall back to the original path
        path.to_owned()
    } else {
        let r = path.substring_char(start, plen);
        proof {
            assert(r@ =~= path@.skip(start as int));
        }
        r.to_owned()
    }
}

/// Strips the longest matching configured base path (or, with none
/// configured, the home-directory prefix) from `path`.
pub fn normalize_path(path: &str, base_paths: &Vec<String>, home: &Option<String>) -> (r: String)
    ensures
        r@ == normalize_spec(path@, base_paths.deep_view(), opt_view(*home)),
{
    let ghost bdv = base_paths.deep_view();
    let n = base_paths.len();
    if n > 0 {
        let mut best: Option<String> = None;
        let mut i: usize = 0;
        proof {
            assert(bdv.take(0) =~= Seq::<Seq<char>>::empty());
        }
        while i < n
            invariant
                n == base_paths.len(),
                bdv == base_paths.deep_view(),
                i <= n,
                match best {
                    Some(ref s) => pick_base(path@, bdv.take(i as int)) == Some(s@),
                    None => pick_base(path@, bdv.take(i as int)) is None,
                },
            decreases n - i,
        {
            let b = trim_slashes_exec(base_paths[i].as_str());
            proof {
                assert(bdv.take(i as int + 1).drop_last() =~= bdv.take(i as int));
                assert(bdv.take(i as int + 1).last() == bdv[i as int]);
            }
            if base_matches_exec(path, b.as_str()) {
                let take_it = match best {
                    Some(ref prev) => b.unicode_len() > prev.unicode_len(),
                    None => true,
                };
                if take_it {
                    best = Some(b);
                }
            }
            i = i + 1;
        }
        proof {
            assert(bdv.take(n as int) =~= bdv);
            lemma_pick_base_matches(path@, bdv);
        }
        match best {
            Some(b) => strip_base_exec(path, b.as_str()),
            None => path.to_owned(),
        }
    } else {
        match home {
            Some(h0) => {
                let h = trim_slashes_exec(h0.as_str());
                let plen = path.unicode_len();
                let hlen = h.unicode_len();
                if base_matches_exec(path, h.as_str()) && plen > hlen {
                    strip_base_exec(path, h.as_str())
                } else {
                    path.to_owned()
                }
            },
            None => path.to_owned(),
        }
    }
}

/// Whether a character counts as alphabetic when abbreviating a segment.
/// Unicode's table is beyond stating here; contracts name the result.
pub uninterp spec fn is_alpha_char(c: char) -> bool;

/// Relies on char::is_alphabetic: a pure predicate of the character alone.
#[verifier::external_body]
fn char_is_alphabetic(c: char) -> (r: bool)
    ensures
        r == is_alpha_char(c),
{
    c.is_alphabetic()
}

/// The word-splitting characters of a hyphenated or snake-case segment.
pub open spec fn is_dash(c: char) -> bool {
    c == '-' || c == '_'
}

/// The length of the leading run of non-dash characters.
pub open spec fn dash_run(s: Seq<char>) -> nat
    decreases s.len(),
{
    if s.len() == 0 || is_dash(s[0]) {
        0
    } else {
        1 + dash_run(s.drop_first())
    }
}

proof fn lemma_dash_run_is(s: Seq<char>, k: int)
    requires
        0 <= k <= s.len(),
        forall|j: int| 0 <= j < k ==> !is_dash(s[j]),
        k < s.len() ==> is_dash(s[k]),
    ensures
        dash_run(s) == k,
    decreases k,
{
    if k > 0 {
        lemma_dash_run_is(s.drop_first(), k - 1);
    }
}

/// `s` split on `'-'` and `'_'`, keeping empty parts.
pub open spec fn dash_split(s: Seq<char>) -> Seq<Seq<char>>
    decreases s.len(),
{
    let k = if dash_run(s) <= s.len() {
        dash_run(s) as int
    } else {
        s.len() as int
    };
    if k == s.len() {
        seq![s]
    } else {
        seq![s.take(k)] + dash_split(s.skip(k + 1))
    }
}

/// The first character of a part, with `'x'` standing in for an empty part.
pub open spec fn initial_of(p: Seq<char>) -> char {
    if p.len() == 0 {
        'x'
    } else {
        p[0]
    }
}

/// The initials of the parts, joined with `'-'`.
pub open spec fn initials_join(parts: Seq<Seq<char>>) -> Seq<char>
    decreases parts.len(),
{
    if parts.len() == 0 {
        Seq::empty()
    } else if parts.len() == 1 {
        seq![initial_of(parts[0])]
    } else {
        seq![initial_of(parts[0]), '-'] + initials_join(parts.drop_first())
    }
}

/// Collects alphabetic characters until the abbreviation has three characters.
pub open spec fn abbrev_scan(rest: Seq<char>, acc: Seq<char>) -> Seq<char>
    decreases rest.len(),
{
    if acc.len() >= 3 || rest.len() == 0 {
        acc
    } else if is_alpha_char(rest[0]) {
        abbrev_scan(rest.drop_first(), acc.push(rest[0]))
    } else {
        abbrev_scan(rest.drop_first(), acc)
    }
}

/// A short token standing for one path segment: segments of at most three
/// bytes are kept whole; hyphenated or snake-case segments become their
/// parts' initials joined with `'-'`; other segments keep their first
/// character plus following alphabetic characters up to three characters,
/// with the second character appended if fewer than two were produced.
pub open spec fn abbreviate_spec(seg: Seq<char>) -> Seq<char> {
    if byte_len(seg) <= 3 {
        seg
    } else if seg.contains('-') || seg.contains('_') {
        initials_join(dash_split(seg))
    } else {
        let a = abbrev_scan(seg.drop_first(), seq![seg[0]]);
        if a.len() < 2 && seg.len() > 1 {
            a.push(seg[1])
        } else {
            a
        }
    }
}

fn abbreviate_initials(seg: &str) -> (r: String)
    ensures
        r@ == initials_join(dash_split(seg@)),
{
    let len = seg.unicode_len();
    let mut r = String::new();
    let mut p: usize = 0;
    proof {
        assert(seg@.skip(0) =~= seg@);
        assert(r@ + initials_join(dash_split(seg@)) =~= initials_join(dash_split(seg@)));
    }
    loop
        invariant
            len == seg@.len(),
            p <= len,
            r@ + initials_join(dash_split(seg@.skip(p as int))) =~= initials_join(
                dash_split(seg@),
            ),
        decreases len - p,
    {
        // scan the current part
        let mut q = p;
        while q < len && !(seg.get_char(q) == '-' || seg.get_char(q) == '_')
            invariant
                len == seg@.len(),
                p <= q <= len,
                forall|j: int| p <= j < q ==> !is_dash(seg@[j]),
            decreases len - q,
        {
            q = q + 1;
        }
        let ghost t = seg@.skip(p as int);
        proof {
            lemma_dash_run_is(t, q - p);
        }
        if q == p {
            r.append("x");
            proof {
                reveal_strlit("x");
                assert("x"@ =~= seq!['x']);
                assert(initial_of(t.take(0)) == 'x');
            }
        } else {
            let c = seg.substring_char(p, p + 1);
            r.append(c);
            proof {
                assert(c@ =~= seq![seg@[p as int]]);
                assert(t.take(q - p)[0] == seg@[p as int]);
                assert(initial_of(t.take(q - p)) == seg@[p as int]);
            }
        }
        if q == len {
            proof {
                assert(t.take(q - p) =~= t);
                assert(dash_split(t) =~= seq![t]);
                assert(initials_join(dash_split(t)) =~= seq![initial_of(t)]);
            }
            return r;
        }
        r.append("-");
        proof {
            reveal_strlit("-");
            assert("-"@ =~= seq!['-']);
            assert(dash_split(t) =~= seq![t.take(q - p)] + dash_split(t.skip(q - p + 1)));
            assert(dash_split(t).len() >= 2) by {
                assert(dash_split(t.skip(q - p + 1)).len() >= 1);
            }
            assert(initials_join(dash_split(t)) =~= seq![initial_of(t.take(q - p)), '-']
                + initials_join(dash_split(t).drop_first()));
            assert(dash_split(t).drop_first() =~= dash_split(t.skip(q - p + 1)));
            assert(t.skip(q - p + 1) =~= seg@.skip(q as int + 1));
        }
        p = q + 1;
    }
}

/// Compresses one path segment to a short token.
pub fn abbreviate_segment(seg: &str) -> (r: String)
    ensures
        r@ == abbreviate_spec(seg@),
{
    if crate::strutil::byte_len_le(seg, 3) {
        return seg.to_owned();
    }
    if str_contains_char(seg, '-') || str_contains_char(seg, '_') {
        return abbreviate_initials(seg);
    }
    let len = seg.unicode_len();
    proof {
        crate::strutil::lemma_byte_len_at_least_chars(seg@);
    }
    let mut acc = seg.substring_char(0, 1).to_owned();
    let mut count: usize = 1;
    proof {
        assert(acc@ =~= seq![seg@[0]]);
        assert(seg@.skip(1) =~= seg@.drop_first());
    }
    let mut i: usize = 1;
    while i < len && count < 3
        invariant
            len == seg@.len(),
            1 <= i <= len,
            count == acc@.len(),
            abbrev_scan(seg@.drop_first(), seq![seg@[0]]) == abbrev_scan(
                seg@.skip(i as int),
                acc@,
            ),
        decreases len - i,
    {
        let c = seg.get_char(i);
        proof {
            assert(seg@.skip(i as int)[0] == seg@[i as int]);
            assert(seg@.skip(i as int).drop_first() =~= seg@.skip(i as int + 1));
        }
        if char_is_alphabetic(c) {
            let cs = seg.substring_char(i, i + 1);
            let ghost a0 = acc@;
            acc.append(cs);
            count = count + 1;
            proof {
                assert(cs@ =~= seq![seg@[i as int]]);
                assert(acc@ =~= a0.push(seg@[i as int]));
            }
        }
        i = i + 1;
    }
    proof {
        assert(abbrev_scan(seg@.skip(i as int), acc@) == acc@);
    }
    if count < 2 && len > 1 {
        let c2 = seg.substring_char(1, 2);
        let ghost a0 = acc@;
        acc.append(c2);
        proof {
            assert(c2@ =~= seq![seg@[1]]);
            assert(acc@ =~= a0.push(seg@[1]));
        }
    }
    acc
}

/// Is `a` a strict component-wise prefix of `b`?
pub open spec fn proper_prefix(a: Seq<Seq<char>>, b: Seq<Seq<char>>) -> bool {
    a.len() < b.len() && b.take(a.len() as int) == a
}

/// Is candidate `i` a strict descendant of some other candidate's path?
pub open spec fn nested_spec(i: int, segs_all: Seq<Seq<Seq<char>>>) -> bool {
    exists|j: int|
        0 <= j < segs_all.len() && j != i && proper_prefix(segs_all[j], segs_all[i])
}

/// Do candidates `i` and `j` share a basename (their final path component)?
pub open spec fn same_base(i: int, j: int, segs_all: Seq<Seq<Seq<char>>>) -> bool {
    segs_all[i].len() > 0 && segs_all[j].len() > 0 && segs_all[i].last() == segs_all[j].last()
}

/// The last `k` segments of `segs`, joined with `sep`.
pub open spec fn last_k_join(segs: Seq<Seq<char>>, k: int, sep: Seq<char>) -> Seq<char> {
    join(segs.skip(segs.len() - k), sep)
}

/// Does the `k`-segment name of candidate `i` collide with another member of
/// its basename group evaluated at the same `k`? Members with fewer than `k`
/// segments are skipped.
pub open spec fn collides_at(i: int, k: int, segs_all: Seq<Seq<Seq<char>>>, sep: Seq<char>) -> bool {
    exists|j: int|
        0 <= j < segs_all.len() && j != i && same_base(i, j, segs_all) && segs_all[j].len() >= k
            && last_k_join(segs_all[j], k, sep) == last_k_join(segs_all[i], k, sep)
}

/// The first `k` at or above the given one at which candidate `i` is
/// collision-free, or the full segment count if none is.
pub open spec fn find_k(i: int, k: int, segs_all: Seq<Seq<Seq<char>>>, sep: Seq<char>) -> int
    decreases segs_all[i].len() - k,
{
    if k >= segs_all[i].len() {
        segs_all[i].len() as int
    } else if !collides_at(i, k, segs_all, sep) {
        k
    } else {
        find_k(i, k + 1, segs_all, sep)
    }
}

/// The smallest segment count the context search may start from: three
/// (capped at the path length) for nested candidates, one otherwise.
pub open spec fn min_required(i: int, segs_all: Seq<Seq<Seq<char>>>) -> int {
    if nested_spec(i, segs_all) {
        if segs_all[i].len() >= 3 {
            3
        } else {
            segs_all[i].len() as int
        }
    } else {
        1
    }
}

/// The segment count the context search accepts for candidate `i`, raised to
/// two for a nested candidate that would otherwise get less context.
pub open spec fn accepted_k(i: int, segs_all: Seq<Seq<Seq<char>>>, sep: Seq<char>) -> int {
    let k = find_k(i, min_required(i, segs_all), segs_all, sep);
    if nested_spec(i, segs_all) && k < 2 {
        if segs_all[i].len() >= 2 {
            2
        } else {
            segs_all[i].len() as int
        }
    } else {
        k
    }
}

/// The accepted name before the length budget is applied.
pub open spec fn raw_name(i: int, segs_all: Seq<Seq<Seq<char>>>, sep: Seq<char>) -> Seq<char> {
    last_k_join(segs_all[i], accepted_k(i, segs_all, sep), sep)
}

/// Every segment abbreviated.
pub open spec fn abbrev_all(w: Seq<Seq<char>>) -> Seq<Seq<char>> {
    w.map_values(|p: Seq<char>| abbreviate_spec(p))
}

/// Drops segments from the left until the join fits the budget or one
/// segment remains.
pub open spec fn drop_left(w: Seq<Seq<char>>, sep: Seq<char>) -> Seq<Seq<char>>
    decreases w.len(),
{
    if byte_len(join(w, sep)) <= 29 || w.len() <= 1 {
        w
    } else {
        drop_left(w.drop_first(), sep)
    }
}

/// Greedily prepends abbreviated segments, right to left, while the join
/// stays within the budget.
pub open spec fn extend_left(
    segs: Seq<Seq<char>>,
    idx: int,
    acc: Seq<Seq<char>>,
    sep: Seq<char>,
) -> Seq<Seq<char>>
    decreases idx + 1,
{
    if idx < 0 {
        acc
    } else {
        let t = seq![abbreviate_spec(segs[idx])] + acc;
        if byte_len(join(t, sep)) <= 29 {
            extend_left(segs, idx - 1, t, sep)
        } else {
            acc
        }
    }
}

/// The truncation procedure: start from the accepted right-anchored window;
/// if it exceeds the budget, abbreviate every segment, then drop segments
/// from the left, then hard-truncate a lone segment; otherwise extend
/// leftward with abbreviated segments while the budget allows. A final
/// hard truncation guards the budget in every case.
pub open spec fn trunc_spec(segs: Seq<Seq<char>>, k: int, sep: Seq<char>) -> Seq<char> {
    let window = segs.skip(segs.len() - k);
    let joined = join(window, sep);
    if byte_len(joined) > 29 {
        let kept = drop_left(abbrev_all(window), sep);
        if byte_len(join(kept, sep)) > 29 {
            spec_truncate_bytes(join(kept, sep), 29)
        } else {
            join(kept, sep)
        }
    } else {
        let res = join(extend_left(segs, segs.len() - k - 1, window, sep), sep);
        if byte_len(res) > 29 {
            spec_truncate_bytes(res, 29)
        } else {
            res
        }
    }
}

/// The session name of candidate `i`: the accepted context name, truncated
/// when it exceeds the budget; `"root"` for a path with no components.
pub open spec fn ctx_name_spec(i: int, segs_all: Seq<Seq<Seq<char>>>, sep: Seq<char>) -> Seq<char> {
    if segs_all[i].len() == 0 {
        "root"@
    } else {
        let name = raw_name(i, segs_all, sep);
        if byte_len(name) > 29 {
            trunc_spec(segs_all[i], accepted_k(i, segs_all, sep), sep)
        } else {
            name
        }
    }
}

/// The segment lists the resolver works over: each path normalized, then
/// split into components.
pub open spec fn resolver_segments(
    paths: Seq<Seq<char>>,
    bps: Seq<Seq<char>>,
    home: Option<Seq<char>>,
) -> Seq<Seq<Seq<char>>> {
    Seq::new(paths.len(), |i: int| crate::strutil::segments_of(normalize_spec(paths[i], bps, home)))
}

/// A segment of at most three bytes abbreviates to itself.
pub proof fn lemma_abbreviate_short_identity(seg: Seq<char>)
    requires
        byte_len(seg) <= 3,
    ensures
        abbreviate_spec(seg) == seg,
{
}

/// The truncation procedure always lands within the byte budget.
pub proof fn lemma_trunc_bound(segs: Seq<Seq<char>>, k: int, sep: Seq<char>)
    ensures
        byte_len(trunc_spec(segs, k, sep)) <= 29,
{
    let window = segs.skip(segs.len() - k);
    let joined = join(window, sep);
    if byte_len(joined) > 29 {
        let kept = drop_left(abbrev_all(window), sep);
        if byte_len(join(kept, sep)) > 29 {
            crate::strutil::lemma_truncate_bytes_bound(join(kept, sep), 29);
        }
    } else {
        let res = join(extend_left(segs, segs.len() - k - 1, window, sep), sep);
        if byte_len(res) > 29 {
            crate::strutil::lemma_truncate_bytes_bound(res, 29);
        }
    }
}

/// Every resolved session name fits in the 29-byte budget.
pub proof fn lemma_name_length_bound(i: int, segs_all: Seq<Seq<Seq<char>>>, sep: Seq<char>)
    requires
        0 <= i < segs_all.len(),
    ensures
        byte_len(ctx_name_spec(i, segs_all, sep)) <= 29,
{
    if segs_all[i].len() == 0 {
        reveal_strlit("root");
        assert(vstd::utf8::is_ascii_chars("root"@)) by {
            assert("root"@.len() == 4);
            assert("root"@[0] == 'r' && "root"@[1] == 'o' && "root"@[2] == 'o' && "root"@[3]
                == 't');
        }
        vstd::utf8::is_ascii_chars_encode_utf8("root"@);
    } else {
        let name = raw_name(i, segs_all, sep);
        if byte_len(name) > 29 {
            lemma_trunc_bound(segs_all[i], accepted_k(i, segs_all, sep), sep);
        }
    }
}

/// No piece is empty and none contains the character `c`.
pub open spec fn pieces_ok(ps: Seq<Seq<char>>, c: char) -> bool {
    forall|t: int| 0 <= t < ps.len() ==> #[trigger] ps[t].len() > 0 && !ps[t].contains(c)
}

/// Joining pieces that are non-empty and free of the separator's first
/// character loses no information: equal joins mean equal piece lists.
pub proof fn lemma_join_injective(ps: Seq<Seq<char>>, qs: Seq<Seq<char>>, sep: Seq<char>)
    requires
        sep.len() >= 1,
        ps.len() >= 1,
        qs.len() >= 1,
        pieces_ok(ps, sep[0]),
        pieces_ok(qs, sep[0]),
        join(ps, sep) == join(qs, sep),
    ensures
        ps == qs,
    decreases ps.len(),
{
    let s = join(ps, sep);
    if ps.len() == 1 && qs.len() == 1 {
        assert(ps =~= qs);
    } else if ps.len() == 1 {
        // s is ps[0], which cannot contain sep[0]; but qs splits s around one
        assert(s == ps[0]);
        assert(s == (qs[0] + sep) + join(qs.drop_first(), sep));
        assert(s[qs[0].len() as int] == sep[0]);
        assert(ps[0].contains(sep[0]));
        assert(false);
    } else if qs.len() == 1 {
        assert(s == qs[0]);
        assert(s == (ps[0] + sep) + join(ps.drop_first(), sep));
        assert(s[ps[0].len() as int] == sep[0]);
        assert(qs[0].contains(sep[0]));
        assert(false);
    } else {
        let l0 = ps[0].len() as int;
        let m0 = qs[0].len() as int;
        assert(s == (ps[0] + sep) + join(ps.drop_first(), sep));
        assert(s == (qs[0] + sep) + join(qs.drop_first(), sep));
        assert(s[l0] == sep[0]);
        assert(s[m0] == sep[0]);
        if l0 < m0 {
            assert(s[l0] == qs[0][l0]);
            assert(qs[0].contains(sep[0]));
            assert(false);
        }
        if m0 < l0 {
            assert(s[m0] == ps[0][m0]);
            assert(ps[0].contains(sep[0]));
            assert(false);
        }
        assert forall|u: int| 0 <= u < l0 implies ps[0][u] == qs[0][u] by {
            assert(s[u] == ps[0][u]);
            assert(s[u] == qs[0][u]);
        }
        assert(ps[0] =~= qs[0]);
        assert(join(ps.drop_first(), sep) =~= join(qs.drop_first(), sep)) by {
            let rp = join(ps.drop_first(), sep);
            let rq = join(qs.drop_first(), sep);
            assert(rp.len() == s.len() - l0 - sep.len());
            assert(rq.len() == s.len() - l0 - sep.len());
            assert(forall|u: int|
                0 <= u < rp.len() ==> rp[u] == s[l0 + sep.len() + u] && rq[u] == s[l0 + sep.len()
                    + u]);
        }
        assert(pieces_ok(ps.drop_first(), sep[0])) by {
            assert(forall|t: int|
                0 <= t < ps.drop_first().len() ==> ps.drop_first()[t] == ps[t + 1]);
        }
        assert(pieces_ok(qs.drop_first(), sep[0])) by {
            assert(forall|t: int|
                0 <= t < qs.drop_first().len() ==> qs.drop_first()[t] == qs[t + 1]);
        }
        lemma_join_injective(ps.drop_first(), qs.drop_first(), sep);
        assert(ps.len() == qs.len());
        assert forall|t: int| 0 <= t < ps.len() implies ps[t] == qs[t] by {
            if t > 0 {
                assert(ps.drop_first()[t - 1] == ps[t]);
                assert(qs.drop_first()[t - 1] == qs[t]);
            }
        }
        assert(ps =~= qs);
    }
}

proof fn lemma_find_k_char(i: int, k0: int, segs_all: Seq<Seq<Seq<char>>>, sep: Seq<char>)
    requires
        0 <= i < segs_all.len(),
        1 <= k0 <= segs_all[i].len(),
    ensures
        k0 <= find_k(i, k0, segs_all, sep) <= segs_all[i].len(),
        find_k(i, k0, segs_all, sep) == segs_all[i].len() || !collides_at(
            i,
            find_k(i, k0, segs_all, sep),
            segs_all,
            sep,
        ),
    decreases segs_all[i].len() - k0,
{
    if k0 < segs_all[i].len() && collides_at(i, k0, segs_all, sep) {
        lemma_find_k_char(i, k0 + 1, segs_all, sep);
    }
}

proof fn lemma_accepted_k_char(i: int, segs_all: Seq<Seq<Seq<char>>>, sep: Seq<char>)
    requires
        0 <= i < segs_all.len(),
        segs_all[i].len() >= 1,
    ensures
        1 <= accepted_k(i, segs_all, sep) <= segs_all[i].len(),
        accepted_k(i, segs_all, sep) == segs_all[i].len() || !collides_at(
            i,
            accepted_k(i, segs_all, sep),
            segs_all,
            sep,
        ),
{
    let minr = min_required(i, segs_all);
    lemma_find_k_char(i, minr, segs_all, sep);
    let k = find_k(i, minr, segs_all, sep);
    if nested_spec(i, segs_all) && k < 2 {
        // only a one-segment path can be found below two, and there the raise
        // is capped right back at one
        assert(segs_all[i].len() == 1);
        assert(accepted_k(i, segs_all, sep) == 1);
        assert(k == 1);
    }
}

/// Uniqueness within a basename group: two candidates that share a basename
/// but differ as normalized segment lists receive distinct names, provided
/// the separator is non-empty, no segment contains the separator's first
/// character, and neither name needed truncation. (Truncation, and equal
/// normalized paths, can collapse names; those inputs are excluded.)
pub proof fn lemma_group_uniqueness(
    i: int,
    j: int,
    segs_all: Seq<Seq<Seq<char>>>,
    sep: Seq<char>,
)
    requires
        0 <= i < segs_all.len(),
        0 <= j < segs_all.len(),
        i != j,
        same_base(i, j, segs_all),
        segs_all[i] != segs_all[j],
        sep.len() >= 1,
        forall|u: int|
            0 <= u < segs_all.len() ==> pieces_ok(#[trigger] segs_all[u], sep[0]),
        byte_len(raw_name(i, segs_all, sep)) <= 29,
        byte_len(raw_name(j, segs_all, sep)) <= 29,
    ensures
        ctx_name_spec(i, segs_all, sep) != ctx_name_spec(j, segs_all, sep),
{
    let li = segs_all[i].len() as int;
    let lj = segs_all[j].len() as int;
    lemma_accepted_k_char(i, segs_all, sep);
    lemma_accepted_k_char(j, segs_all, sep);
    let ki = accepted_k(i, segs_all, sep);
    let kj = accepted_k(j, segs_all, sep);
    assert(ctx_name_spec(i, segs_all, sep) == raw_name(i, segs_all, sep));
    assert(ctx_name_spec(j, segs_all, sep) == raw_name(j, segs_all, sep));
    if raw_name(i, segs_all, sep) == raw_name(j, segs_all, sep) {
        let si = segs_all[i].skip(li - ki);
        let sj = segs_all[j].skip(lj - kj);
        assert(pieces_ok(si, sep[0])) by {
            assert(forall|t: int| 0 <= t < si.len() ==> si[t] == segs_all[i][li - ki + t]);
        }
        assert(pieces_ok(sj, sep[0])) by {
            assert(forall|t: int| 0 <= t < sj.len() ==> sj[t] == segs_all[j][lj - kj + t]);
        }
        lemma_join_injective(si, sj, sep);
        assert(ki == kj);
        if !collides_at(i, ki, segs_all, sep) {
            // j itself witnesses a collision at ki: same basename, enough
            // segments, and the very name equality assumed
            assert(collides_at(i, ki, segs_all, sep)) by {
                assert(same_base(i, j, segs_all));
                assert(segs_all[j].len() >= ki);
                assert(last_k_join(segs_all[j], ki, sep) == last_k_join(segs_all[i], ki, sep));
            }
            assert(false);
        } else if !collides_at(j, kj, segs_all, sep) {
            assert(collides_at(j, kj, segs_all, sep)) by {
                assert(same_base(j, i, segs_all));
                assert(segs_all[i].len() >= kj);
            }
            assert(false);
        } else {
            // both fell back to their full paths, which the name equality
            // makes equal, contradicting distinctness
            assert(ki == li && kj == lj);
            assert(segs_all[i].skip(0) =~= segs_all[i]);
            assert(segs_all[j].skip(0) =~= segs_all[j]);
            assert(segs_all[i] == segs_all[j]);
            assert(false);
        }
    }
}

fn is_proper_prefix(a: &Vec<String>, b: &Vec<String>) -> (r: bool)
    ensures
        r == proper_prefix(a.deep_view(), b.deep_view()),
{
    let alen = a.len();
    if alen >= b.len() {
        return false;
    }
    let mut t: usize = 0;
    while t < alen
        invariant
            alen == a.len() < b.len(),
            t <= alen,
            forall|u: int| 0 <= u < t ==> a.deep_view()[u] == b.deep_view()[u],
        decreases alen - t,
    {
        if !str_eq(a[t].as_str(), b[t].as_str()) {
            proof {
                assert(a.deep_view()[t as int] != b.deep_view()[t as int]);
                if proper_prefix(a.deep_view(), b.deep_view()) {
                    assert(b.deep_view().take(alen as int)[t as int] == b.deep_view()[t as int]);
                }
            }
            return false;
        }
        t = t + 1;
    }
    proof {
        assert(b.deep_view().take(alen as int) =~= a.deep_view());
    }
    true
}

fn is_nested(i: usize, segs: &Vec<Vec<String>>) -> (r: bool)
    requires
        i < segs.len(),
    ensures
        r == nested_spec(i as int, segs.deep_view()),
{
    let n = segs.len();
    let mut j: usize = 0;
    while j < n
        invariant
            n == segs.len(),
            i < n,
            j <= n,
            forall|u: int|
                0 <= u < j && u != i ==> !proper_prefix(
                    segs.deep_view()[u],
                    segs.deep_view()[i as int],
                ),
        decreases n - j,
    {
        if j != i && is_proper_prefix(&segs[j], &segs[i]) {
            proof {
                assert(proper_prefix(segs.deep_view()[j as int], segs.deep_view()[i as int]));
                assert(nested_spec(i as int, segs.deep_view()));
            }
            return true;
        }
        j = j + 1;
    }
    false
}

fn last_k_join_exec(segs_i: &Vec<String>, k: usize, sep: &str) -> (r: String)
    requires
        1 <= k <= segs_i.len(),
    ensures
        r@ == last_k_join(segs_i.deep_view(), k as int, sep@),
{
    let li = segs_i.len();
    let mut window: Vec<String> = Vec::new();
    let mut j = li - k;
    proof {
        assert(segs_i.deep_view().len() == li as int);
        assert(window.deep_view() =~= segs_i.deep_view().subrange(li - k, li - k));
    }
    while j < li
        invariant
            li == segs_i.len(),
            segs_i.deep_view().len() == li as int,
            li - k <= j <= li,
            1 <= k <= li,
            window.deep_view() =~= segs_i.deep_view().subrange(li - k, j as int),
        decreases li - j,
    {
        let ghost pre = window.deep_view();
        window.push(segs_i[j].clone());
        proof {
            assert(window.deep_view() =~= pre.push(segs_i.deep_view()[j as int]));
            assert(pre.push(segs_i.deep_view()[j as int]) =~= segs_i.deep_view().subrange(
                li - k,
                j as int + 1,
            ));
        }
        j = j + 1;
    }
    proof {
        assert(segs_i.deep_view().subrange(li - k, li as int) =~= segs_i.deep_view().skip(
            li - k,
        ));
    }
    crate::strutil::join_strings(&window, sep)
}

fn collides_exec(i: usize, k: usize, segs: &Vec<Vec<String>>, sep: &str) -> (r: bool)
    requires
        i < segs.len(),
        1 <= k <= segs.deep_view()[i as int].len(),
    ensures
        r == collides_at(i as int, k as int, segs.deep_view(), sep@),
{
    let ghost dv = segs.deep_view();
    let my_join = last_k_join_exec(&segs[i], k, sep);
    let my_len = segs[i].len();
    let n = segs.len();
    let mut j: usize = 0;
    while j < n
        invariant
            dv == segs.deep_view(),
            n == segs.len(),
            i < n,
            1 <= k <= dv[i as int].len(),
            my_len == dv[i as int].len(),
            my_join@ == last_k_join(dv[i as int], k as int, sep@),
            j <= n,
            forall|u: int|
                0 <= u < j ==> !(u != i && same_base(i as int, u, dv) && dv[u].len() >= k
                    && last_k_join(dv[u], k as int, sep@) == last_k_join(
                    dv[i as int],
                    k as int,
                    sep@,
                )),
        decreases n - j,
    {
        if j != i && segs[j].len() >= 1 && segs[j].len() >= k {
            let same = str_eq(
                segs[j][segs[j].len() - 1].as_str(),
                segs[i][my_len - 1].as_str(),
            );
            proof {
                assert(dv[j as int].last() == segs@[j as int].deep_view().last());
            }
            if same {
                let oj = last_k_join_exec(&segs[j], k, sep);
                if str_eq(oj.as_str(), my_join.as_str()) {
                    proof {
                        assert(same_base(i as int, j as int, dv));
                    }
                    return true;
                }
            }
        }
        j = j + 1;
    }
    false
}

fn smart_truncate(segs_i: &Vec<String>, k: usize, sep: &str) -> (r: String)
    requires
        1 <= k <= segs_i.len(),
    ensures
        r@ == trunc_spec(segs_i.deep_view(), k as int, sep@),
{
    let ghost dv = segs_i.deep_view();
    let li = segs_i.len();
    let mut window: Vec<String> = Vec::new();
    let mut j = li - k;
    proof {
        assert(dv.len() == li as int);
        assert(window.deep_view() =~= dv.subrange(li - k, li - k));
    }
    while j < li
        invariant
            dv == segs_i.deep_view(),
            li == segs_i.len(),
            dv.len() == li as int,
            1 <= k <= li,
            li - k <= j <= li,
            window.deep_view() =~= dv.subrange(li - k, j as int),
        decreases li - j,
    {
        let ghost pre = window.deep_view();
        window.push(segs_i[j].clone());
        proof {
            assert(window.deep_view() =~= pre.push(dv[j as int]));
            assert(pre.push(dv[j as int]) =~= dv.subrange(li - k, j as int + 1));
        }
        j = j + 1;
    }
    let ghost wspec = dv.skip(li - k);
    proof {
        assert(dv.subrange(li - k, li as int) =~= wspec);
        assert(window.deep_view() == wspec);
    }
    let joined = crate::strutil::join_strings(&window, sep);
    if !crate::strutil::byte_len_le(joined.as_str(), NAME_BUDGET) {
        // over budget: abbreviate every segment
        let mut aw: Vec<String> = Vec::new();
        let wn = window.len();
        let mut t: usize = 0;
        while t < wn
            invariant
                wn == window.len(),
                t <= wn,
                aw.len() == t,
                forall|u: int|
                    0 <= u < t ==> aw.deep_view()[u] == abbreviate_spec(window.deep_view()[u]),
            decreases wn - t,
        {
            let ab = abbreviate_segment(window[t].as_str());
            let ghost pre = aw.deep_view();
            let ghost abv = ab@;
            aw.push(ab);
            proof {
                assert(aw.deep_view() =~= pre.push(abv));
            }
            t = t + 1;
        }
        proof {
            assert(window.deep_view().len() == wn as int);
            assert(aw.deep_view() =~= abbrev_all(wspec));
        }
        let ghost aw0 = aw.deep_view();
        // drop segments from the left until the join fits
        loop
            invariant
                drop_left(aw0, sep@) == drop_left(aw.deep_view(), sep@),
                1 <= k <= li,
                li == segs_i.len(),
                dv == segs_i.deep_view(),
                wspec == dv.skip(li - k),
                byte_len(join(wspec, sep@)) > 29,
                aw.len() >= 1,
                aw0 == abbrev_all(wspec),
            decreases aw.len(),
        {
            let cur = crate::strutil::join_strings(&aw, sep);
            let fits = crate::strutil::byte_len_le(cur.as_str(), NAME_BUDGET);
            if fits || aw.len() == 1 {
                proof {
                    assert(drop_left(aw.deep_view(), sep@) == aw.deep_view());
                    assert(cur@ == join(drop_left(abbrev_all(wspec), sep@), sep@));
                }
                if fits {
                    return cur;
                } else {
                    return truncate_to_bytes(cur.as_str(), NAME_BUDGET);
                }
            }
            let ghost pre = aw.deep_view();
            aw.remove(0);
            proof {
                assert(aw.deep_view() =~= pre.drop_first());
            }
        }
    } else {
        // within budget: extend leftward while it still fits
        let mut cur = joined;
        let mut left = li - k;
        let ghost mut acc = wspec;
        proof {
            assert(acc.len() == k as int);
        }
        let mut stuck = false;
        while left > 0 && !stuck
            invariant
                dv == segs_i.deep_view(),
                li == segs_i.len(),
                dv.len() == li as int,
                1 <= k <= li,
                left <= li - k,
                acc.len() >= 1,
                cur@ == join(acc, sep@),
                byte_len(cur@) <= 29,
                wspec == dv.skip(li - k),
                byte_len(join(wspec, sep@)) <= 29,
                !stuck ==> extend_left(dv, left as int - 1, acc, sep@) == extend_left(
                    dv,
                    li - k - 1,
                    wspec,
                    sep@,
                ),
                stuck ==> acc == extend_left(dv, li - k - 1, wspec, sep@),
            decreases left, (if stuck { 0int } else { 1int }),
        {
            let a = abbreviate_segment(segs_i[left - 1].as_str());
            let mut tst = String::new();
            tst.append(a.as_str());
            tst.append(sep);
            tst.append(cur.as_str());
            let ghost tacc = seq![a@] + acc;
            proof {
                assert(tacc.len() >= 2);
                assert(tacc[0] == a@);
                assert(tacc.drop_first() =~= acc);
                assert(join(tacc, sep@) == tacc[0] + sep@ + join(acc, sep@));
                assert(tst@ =~= a@ + sep@ + cur@);
                crate::strutil::lemma_byte_len_concat(a@ + sep@, cur@);
                crate::strutil::lemma_byte_len_concat(a@, sep@);
                assert((a@ + sep@) + cur@ =~= a@ + sep@ + cur@);
            }
            if crate::strutil::byte_len_le(tst.as_str(), NAME_BUDGET) {
                cur = tst;
                proof {
                    acc = tacc;
                }
                left = left - 1;
            } else {
                stuck = true;
            }
        }
        proof {
            if !stuck {
                assert(extend_left(dv, -1, acc, sep@) == acc);
            }
            assert(acc == extend_left(dv, li - k - 1, wspec, sep@));
            assert(cur@ == join(extend_left(dv, li - k - 1, wspec, sep@), sep@));
        }
        cur
    }
}

/// Resolves a session name for every path: paths are normalized, grouped by
/// basename, disambiguated with the fewest trailing segments that are unique
/// within the group, and bounded to the name budget.
pub fn resolve_names(paths: &Vec<String>, config: &crate::config::Config, home: &Option<String>) -> (names: Vec<String>)
    ensures
        names.len() == paths.len(),
        forall|i: int|
            0 <= i < paths.len() ==> names.deep_view()[i] == ctx_name_spec(
                i,
                resolver_segments(
                    paths.deep_view(),
                    config.base_paths.deep_view(),
                    opt_view(*home),
                ),
                config.session_separator@,
            ),
{
    let ghost target = resolver_segments(
        paths.deep_view(),
        config.base_paths.deep_view(),
        opt_view(*home),
    );
    let n = paths.len();
    let mut segs: Vec<Vec<String>> = Vec::new();
    let mut i: usize = 0;
    while i < n
        invariant
            n == paths.len(),
            i <= n,
            segs.len() == i,
            target == resolver_segments(
                paths.deep_view(),
                config.base_paths.deep_view(),
                opt_view(*home),
            ),
            forall|u: int| 0 <= u < i ==> segs.deep_view()[u] == target[u],
        decreases n - i,
    {
        let norm = normalize_path(paths[i].as_str(), &config.base_paths, home);
        let sv = crate::strutil::split_on_char(norm.as_str(), '/');
        segs.push(sv);
        i = i + 1;
    }
    proof {
        assert(segs.deep_view() =~= target);
    }
    let sep = config.session_separator.as_str();
    let mut names: Vec<String> = Vec::new();
    let mut i: usize = 0;
    while i < n
        invariant
            n == paths.len(),
            n == segs.len(),
            i <= n,
            names.len() == i,
            segs.deep_view() == target,
            sep@ == config.session_separator@,
            forall|u: int|
                0 <= u < i ==> names.deep_view()[u] == ctx_name_spec(u, target, sep@),
        decreases n - i,
    {
        let li = segs[i].len();
        let name: String;
        if li == 0 {
            name = String::from_str("root");
        } else {
            let nested = is_nested(i, &segs);
            let minr: usize = if nested {
                if li >= 3 {
                    3
                } else {
                    li
                }
            } else {
                1
            };
            let mut k = minr;
            proof {
                assert(min_required(i as int, target) == minr as int);
            }
            while k < li && collides_exec(i, k, &segs, sep)
                invariant
                    n == segs.len(),
                    i < n,
                    segs.deep_view() == target,
                    li == segs[i as int].len(),
                    li == target[i as int].len(),
                    li >= 1,
                    minr as int == min_required(i as int, target),
                    minr <= k <= li,
                    find_k(i as int, minr as int, target, sep@) == find_k(
                        i as int,
                        k as int,
                        target,
                        sep@,
                    ),
                decreases li - k,
            {
                k = k + 1;
            }
            proof {
                assert(find_k(i as int, k as int, target, sep@) == k as int);
            }
            if nested && k < 2 {
                k = if li >= 2 {
                    2
                } else {
                    li
                };
            }
            proof {
                assert(accepted_k(i as int, target, sep@) == k as int);
            }
            let raw = last_k_join_exec(&segs[i], k, sep);
            if crate::strutil::byte_len_le(raw.as_str(), NAME_BUDGET) {
                name = raw;
            } else {
                name = smart_truncate(&segs[i], k, sep);
            }
        }
        proof {
            if li == 0 {
                reveal_strlit("root");
            }
            assert(name@ == ctx_name_spec(i as int, target, sep@));
        }
        let ghost pre = names.deep_view();
        names.push(name);
        proof {
            assert(names.deep_view() =~= pre.push(name@));
        }
        i = i + 1;
    }
    names
}

} // verus!
