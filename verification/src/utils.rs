//! String and path utilities: character-level string helpers, splitting and
//! joining on a separator, slash-path normalization, longest common prefix
//! and human-readable sizes.

use vstd::prelude::*;

verus! {

// ---------------------------------------------------------------------------
// Splitting and joining, at the specification level.
// ---------------------------------------------------------------------------

/// The segments of `s` split at `sep`.  Splitting the empty string yields one
/// empty segment; every separator ends the current segment and opens a new one.
pub open spec fn split_on(s: Seq<char>, sep: char) -> Seq<Seq<char>>
    decreases s.len(),
{
    if s.len() == 0 {
        seq![Seq::<char>::empty()]
    } else {
        let rest = split_on(s.drop_last(), sep);
        if s.last() == sep {
            rest.push(Seq::<char>::empty())
        } else {
            rest.update(rest.len() - 1, rest.last().push(s.last()))
        }
    }
}

/// The segments joined back together with `sep` between neighbours.
pub open spec fn join_with(segs: Seq<Seq<char>>, sep: char) -> Seq<char>
    decreases segs.len(),
{
    if segs.len() == 0 {
        Seq::<char>::empty()
    } else if segs.len() == 1 {
        segs[0]
    } else {
        join_with(segs.drop_last(), sep) + seq![sep] + segs.last()
    }
}

pub proof fn lemma_split_on_nonempty(s: Seq<char>, sep: char)
    ensures
        split_on(s, sep).len() >= 1,
    decreases s.len(),
{
    if s.len() > 0 {
        lemma_split_on_nonempty(s.drop_last(), sep);
    }
}

// ---------------------------------------------------------------------------
// Path normalization.
// ---------------------------------------------------------------------------

/// A `..` segment pops the last retained segment if any; `.` and empty
/// segments are dropped; everything else is retained in order.
pub open spec fn normalize_segs(segs: Seq<Seq<char>>) -> Seq<Seq<char>>
    decreases segs.len(),
{
    if segs.len() == 0 {
        Seq::<Seq<char>>::empty()
    } else {
        let prev = normalize_segs(segs.drop_last());
        let s = segs.last();
        if s == ".."@ {
            if prev.len() > 0 {
                prev.drop_last()
            } else {
                prev
            }
        } else if s == "."@ || s.len() == 0 {
            prev
        } else {
            prev.push(s)
        }
    }
}

/// The canonical segments of a slash-separated path.
pub open spec fn resolved_segs(p: Seq<char>) -> Seq<Seq<char>> {
    normalize_segs(split_on(p, '/'))
}

/// The canonical form of a slash-separated path: `.`, `..` and empty
/// segments removed, the rest rejoined with `/`.  Empty means the root.
pub open spec fn resolved_path(p: Seq<char>) -> Seq<char> {
    join_with(resolved_segs(p), '/')
}

/// The canonical path of a child: the parent's canonical path extended by
/// `/` and the child's name (just the name under the root).
pub open spec fn child_url(base: Seq<char>, name: Seq<char>) -> Seq<char> {
    if base.len() == 0 {
        name
    } else {
        base + seq!['/'] + name
    }
}

// ---------------------------------------------------------------------------
// Character-level string helpers.
// ---------------------------------------------------------------------------

/// Relies on `String::push`: appends exactly the given character.
#[verifier::external_body]
pub fn push_char(s: &mut String, c: char)
    ensures
        final(s)@ == old(s)@.push(c),
{
    s.push(c);
}

/// The characters of `s` as a vector.
pub fn str_to_chars(s: &str) -> (r: Vec<char>)
    ensures
        r@ == s@,
{
    let n = s.unicode_len();
    let mut v: Vec<char> = Vec::new();
    let mut i: usize = 0;
    while i < n
        invariant
            i <= n,
            n == s@.len(),
            v@ == s@.subrange(0, i as int),
        decreases n - i,
    {
        let c = s.get_char(i);
        v.push(c);
        proof {
            assert(v@ =~= s@.subrange(0, i + 1 as int));
        }
        i += 1;
    }
    proof {
        assert(v@ =~= s@);
    }
    v
}

/// The characters of `v` as a `String`.
pub fn chars_to_string(v: &Vec<char>) -> (r: String)
    ensures
        r@ == v@,
{
    let mut s = String::new();
    let mut i: usize = 0;
    while i < v.len()
        invariant
            i <= v.len(),
            s@ == v@.subrange(0, i as int),
        decreases v.len() - i,
    {
        push_char(&mut s, v[i]);
        proof {
            assert(s@ =~= v@.subrange(0, i + 1 as int));
        }
        i += 1;
    }
    proof {
        assert(s@ =~= v@);
    }
    s
}

/// Character-wise string equality.
pub fn str_eq(a: &str, b: &str) -> (r: bool)
    ensures
        r == (a@ == b@),
{
    let an = a.unicode_len();
    let bn = b.unicode_len();
    if an != bn {
        return false;
    }
    let mut i: usize = 0;
    while i < an
        invariant
            i <= an,
            an == a@.len(),
            an == b@.len(),
            a@.subrange(0, i as int) == b@.subrange(0, i as int),
        decreases an - i,
    {
        if a.get_char(i) != b.get_char(i) {
            proof {
                assert(a@[i as int] != b@[i as int]);
            }
            return false;
        }
        proof {
            assert(a@.subrange(0, i + 1 as int) =~= b@.subrange(0, i + 1 as int));
        }
        i += 1;
    }
    proof {
        assert(a@.subrange(0, an as int) =~= a@);
        assert(b@.subrange(0, an as int) =~= b@);
    }
    true
}

/// Whether `p` is a prefix of `s`.
pub open spec fn is_prefix_of(p: Seq<char>, s: Seq<char>) -> bool {
    p.len() <= s.len() && s.subrange(0, p.len() as int) == p
}

/// Whether the string starts with the given prefix.
pub fn str_starts_with(s: &str, p: &str) -> (r: bool)
    ensures
        r == is_prefix_of(p@, s@),
{
    let sn = s.unicode_len();
    let pn = p.unicode_len();
    if pn > sn {
        return false;
    }
    let mut i: usize = 0;
    while i < pn
        invariant
            i <= pn,
            pn <= sn,
            sn == s@.len(),
            pn == p@.len(),
            s@.subrange(0, i as int) == p@.subrange(0, i as int),
        decreases pn - i,
    {
        if s.get_char(i) != p.get_char(i) {
            proof {
                assert(s@[i as int] != p@[i as int]);
                assert(!is_prefix_of(p@, s@)) by {
                    if is_prefix_of(p@, s@) {
                        assert(s@.subrange(0, p@.len() as int)[i as int] == s@[i as int]);
                    }
                }
            }
            return false;
        }
        proof {
            assert(s@.subrange(0, i + 1 as int) =~= p@.subrange(0, i + 1 as int));
        }
        i += 1;
    }
    proof {
        assert(s@.subrange(0, pn as int) =~= p@);
    }
    true
}

/// Whether the string contains the given character.
pub fn str_contains_char(s: &str, c: char) -> (r: bool)
    ensures
        r == s@.contains(c),
{
    let n = s.unicode_len();
    let mut i: usize = 0;
    while i < n
        invariant
            i <= n,
            n == s@.len(),
            forall|j: int| 0 <= j < i ==> s@[j] != c,
        decreases n - i,
    {
        if s.get_char(i) == c {
            return true;
        }
        i += 1;
    }
    proof {
        if s@.contains(c) {
            let j = choose|j: int| 0 <= j < s@.len() && s@[j] == c;
            assert(s@[j] != c);
        }
    }
    false
}

// ---------------------------------------------------------------------------
// Splitting and joining, executable.
// ---------------------------------------------------------------------------

/// The pieces of `s` split at every occurrence of `sep`.
pub fn split_str(s: &str, sep: char) -> (r: Vec<String>)
    ensures
        r.deep_view() == split_on(s@, sep),
{
    let chars = str_to_chars(s);
    let mut done: Vec<String> = Vec::new();
    let mut cur: Vec<char> = Vec::new();
    let mut i: usize = 0;
    proof {
        assert(s@.subrange(0, 0) =~= Seq::<char>::empty());
        assert(done.deep_view().push(cur@) =~= split_on(s@.subrange(0, 0), sep));
    }
    while i < chars.len()
        invariant
            i <= chars.len(),
            chars@ == s@,
            done.deep_view().push(cur@) == split_on(s@.subrange(0, i as int), sep),
        decreases chars.len() - i,
    {
        let ghost p0 = s@.subrange(0, i as int);
        let ghost p1 = s@.subrange(0, i + 1 as int);
        proof {
            assert(p1.drop_last() =~= p0);
            assert(p1.last() == s@[i as int]);
        }
        let c = chars[i];
        if c == sep {
            let seg = chars_to_string(&cur);
            done.push(seg);
            cur = Vec::new();
            proof {
                assert(done.deep_view().push(cur@) =~= split_on(p1, sep));
            }
        } else {
            cur.push(c);
            proof {
                let prev = split_on(p0, sep);
                lemma_split_on_nonempty(p0, sep);
                assert(prev.last() == cur@.drop_last());
                assert(done.deep_view().push(cur@) =~= prev.update(
                    prev.len() - 1,
                    prev.last().push(c),
                ));
            }
        }
        i += 1;
    }
    proof {
        assert(s@.subrange(0, i as int) =~= s@);
    }
    let last = chars_to_string(&cur);
    done.push(last);
    proof {
        assert(done.deep_view() =~= split_on(s@, sep));
    }
    done
}

/// The strings joined with `sep` between neighbours.
pub fn join_strs(v: &Vec<String>, sep: char) -> (r: String)
    ensures
        r@ == join_with(v.deep_view(), sep),
{
    let mut out = String::new();
    if v.len() == 0 {
        proof {
            assert(v.deep_view() =~= Seq::<Seq<char>>::empty());
        }
        return out;
    }
    out.append(v[0].as_str());
    let mut i: usize = 1;
    proof {
        assert(v.deep_view().subrange(0, 1) =~= seq![v.deep_view()[0]]);
    }
    while i < v.len()
        invariant
            1 <= i <= v.len(),
            out@ == join_with(v.deep_view().subrange(0, i as int), sep),
        decreases v.len() - i,
    {
        push_char(&mut out, sep);
        out.append(v[i].as_str());
        proof {
            let dv = v.deep_view();
            let p1 = dv.subrange(0, i + 1 as int);
            assert(p1.drop_last() =~= dv.subrange(0, i as int));
            assert(p1.last() == dv[i as int]);
        }
        i += 1;
    }
    proof {
        assert(v.deep_view().subrange(0, i as int) =~= v.deep_view());
    }
    out
}

// ---------------------------------------------------------------------------
// Path resolution, executable.
// ---------------------------------------------------------------------------

/// The canonical segments of a slash-separated path: `..` pops the last
/// retained segment if any exist, `.` and empty segments are dropped, and
/// every other segment is retained in order.
pub fn resolve_path_files(path: &str) -> (r: Vec<String>)
    ensures
        r.deep_view() == resolved_segs(path@),
{
    let segs = split_str(path, '/');
    let mut out: Vec<String> = Vec::new();
    let mut i: usize = 0;
    proof {
        assert(segs.deep_view().subrange(0, 0) =~= Seq::<Seq<char>>::empty());
        assert(out.deep_view() =~= normalize_segs(segs.deep_view().subrange(0, 0)));
    }
    while i < segs.len()
        invariant
            i <= segs.len(),
            segs.deep_view() == split_on(path@, '/'),
            out.deep_view() == normalize_segs(segs.deep_view().subrange(0, i as int)),
        decreases segs.len() - i,
    {
        let ghost dv = segs.deep_view();
        let ghost p1 = dv.subrange(0, i + 1 as int);
        proof {
            assert(p1.drop_last() =~= dv.subrange(0, i as int));
            assert(p1.last() == dv[i as int]);
            assert(dv[i as int] == segs@[i as int]@);
        }
        let sg = &segs[i];
        if str_eq(sg.as_str(), "..") {
            if out.len() > 0 {
                out.pop();
                proof {
                    assert(out.deep_view() =~= normalize_segs(p1));
                }
            }
        } else if str_eq(sg.as_str(), ".") || sg.as_str().unicode_len() == 0 {
        } else {
            out.push(sg.clone());
            proof {
                assert(out.deep_view() =~= normalize_segs(p1));
            }
        }
        i += 1;
    }
    proof {
        assert(segs.deep_view().subrange(0, i as int) =~= segs.deep_view());
    }
    out
}

/// The canonical form of a slash-separated path, as a string.
pub fn resolve_path(path: &str) -> (r: String)
    ensures
        r@ == resolved_path(path@),
{
    let segs = resolve_path_files(path);
    join_strs(&segs, '/')
}

// ---------------------------------------------------------------------------
// Idempotence of path resolution.
// ---------------------------------------------------------------------------

proof fn lemma_split_single(s: Seq<char>, sep: char)
    requires
        !s.contains(sep),
    ensures
        split_on(s, sep) == seq![s],
    decreases s.len(),
{
    if s.len() == 0 {
        assert(split_on(s, sep) =~~= seq![s]);
    } else {
        assert(s[s.len() - 1] != sep);
        assert(!s.drop_last().contains(sep)) by {
            if s.drop_last().contains(sep) {
                let j = choose|j: int| 0 <= j < s.drop_last().len() && s.drop_last()[j] == sep;
                assert(s[j] == sep);
            }
        }
        lemma_split_single(s.drop_last(), sep);
        assert(s.drop_last().push(s.last()) =~= s);
        assert(split_on(s, sep) =~~= seq![s]);
    }
}

proof fn lemma_split_elems_no_sep(s: Seq<char>, sep: char)
    ensures
        forall|k: int|
            0 <= k < split_on(s, sep).len() ==> !(#[trigger] split_on(s, sep)[k]).contains(sep),
    decreases s.len(),
{
    if s.len() > 0 {
        lemma_split_elems_no_sep(s.drop_last(), sep);
        lemma_split_on_nonempty(s.drop_last(), sep);
        let rest = split_on(s.drop_last(), sep);
        if s.last() == sep {
        } else {
            let upd = rest.last().push(s.last());
            assert(!upd.contains(sep)) by {
                if upd.contains(sep) {
                    let j = choose|j: int| 0 <= j < upd.len() && upd[j] == sep;
                    if j < upd.len() - 1 {
                        assert(rest.last()[j] == sep);
                        assert(rest[rest.len() - 1].contains(sep));
                    }
                }
            }
        }
    }
}

proof fn lemma_norm_elems_clean(segs: Seq<Seq<char>>, sep: char)
    requires
        forall|k: int| 0 <= k < segs.len() ==> !(#[trigger] segs[k]).contains(sep),
    ensures
        forall|k: int|
            0 <= k < normalize_segs(segs).len() ==> {
                let e = #[trigger] normalize_segs(segs)[k];
                &&& !e.contains(sep)
                &&& e != ".."@
                &&& e != "."@
                &&& e.len() > 0
            },
    decreases segs.len(),
{
    if segs.len() > 0 {
        assert(forall|k: int|
            0 <= k < segs.drop_last().len() ==> !(#[trigger] segs.drop_last()[k]).contains(sep));
        lemma_norm_elems_clean(segs.drop_last(), sep);
        let prev = normalize_segs(segs.drop_last());
        let s = segs.last();
        if s == ".."@ {
        } else if s == "."@ || s.len() == 0 {
        } else {
            assert(!s.contains(sep));
        }
    }
}

proof fn lemma_split_append_seg(x: Seq<char>, y: Seq<char>, sep: char)
    requires
        !y.contains(sep),
    ensures
        split_on(x + seq![sep] + y, sep) == split_on(x, sep).push(y),
    decreases y.len(),
{
    if y.len() == 0 {
        assert(x + seq![sep] + y =~= x.push(sep));
        assert((x.push(sep)).drop_last() =~= x);
        assert(split_on(x + seq![sep] + y, sep) =~~= split_on(x, sep).push(y));
    } else {
        assert(y[y.len() - 1] != sep);
        assert(!y.drop_last().contains(sep)) by {
            if y.drop_last().contains(sep) {
                let j = choose|j: int| 0 <= j < y.drop_last().len() && y.drop_last()[j] == sep;
                assert(y[j] == sep);
            }
        }
        lemma_split_append_seg(x, y.drop_last(), sep);
        let z = x + seq![sep] + y;
        assert(z.last() == y.last());
        assert(z.drop_last() =~= x + seq![sep] + y.drop_last());
        let rest = split_on(z.drop_last(), sep);
        assert(rest == split_on(x, sep).push(y.drop_last()));
        lemma_split_on_nonempty(x, sep);
        assert(rest.last() == y.drop_last());
        assert(y.drop_last().push(y.last()) =~= y);
        assert(split_on(z, sep) =~~= split_on(x, sep).push(y));
    }
}

proof fn lemma_split_join_roundtrip(segs: Seq<Seq<char>>, sep: char)
    requires
        segs.len() >= 1,
        forall|k: int| 0 <= k < segs.len() ==> !(#[trigger] segs[k]).contains(sep),
    ensures
        split_on(join_with(segs, sep), sep) == segs,
    decreases segs.len(),
{
    if segs.len() == 1 {
        lemma_split_single(segs[0], sep);
        assert(split_on(join_with(segs, sep), sep) =~~= segs);
    } else {
        assert(forall|k: int|
            0 <= k < segs.drop_last().len() ==> !(#[trigger] segs.drop_last()[k]).contains(sep));
        lemma_split_join_roundtrip(segs.drop_last(), sep);
        lemma_split_append_seg(join_with(segs.drop_last(), sep), segs.last(), sep);
        assert(split_on(join_with(segs, sep), sep) =~~= segs.drop_last().push(segs.last()));
        assert(segs.drop_last().push(segs.last()) =~~= segs);
    }
}

proof fn lemma_norm_clean_identity(segs: Seq<Seq<char>>)
    requires
        forall|k: int|
            0 <= k < segs.len() ==> {
                let e = #[trigger] segs[k];
                &&& e != ".."@
                &&& e != "."@
                &&& e.len() > 0
            },
    ensures
        normalize_segs(segs) == segs,
    decreases segs.len(),
{
    if segs.len() > 0 {
        assert(forall|k: int|
            0 <= k < segs.drop_last().len() ==> {
                let e = #[trigger] segs.drop_last()[k];
                &&& e != ".."@
                &&& e != "."@
                &&& e.len() > 0
            });
        lemma_norm_clean_identity(segs.drop_last());
        assert(normalize_segs(segs) =~~= segs.drop_last().push(segs.last()));
        assert(segs.drop_last().push(segs.last()) =~~= segs);
    }
}

// ---------------------------------------------------------------------------
// Decimal rendering and human-readable sizes.
// ---------------------------------------------------------------------------

/// The character for one decimal digit.
pub open spec fn dec_digit(n: nat) -> char {
    ((48 + n % 10) as u8) as char
}

/// The decimal digits of `n`, most significant first.
pub open spec fn dec_str(n: nat) -> Seq<char>
    decreases n,
{
    if n < 10 {
        seq![dec_digit(n)]
    } else {
        dec_str(n / 10).push(dec_digit(n % 10))
    }
}

fn digit_char(d: u64) -> (c: char)
    requires
        d < 10,
    ensures
        c == dec_digit(d as nat),
{
    ((48 + d as u8)) as char
}

/// The decimal rendering of `n`.
pub fn u64_to_string(n: u64) -> (r: String)
    ensures
        r@ == dec_str(n as nat),
    decreases n,
{
    if n < 10 {
        let mut s = String::new();
        push_char(&mut s, digit_char(n));
        s
    } else {
        let mut s = u64_to_string(n / 10);
        push_char(&mut s, digit_char(n % 10));
        s
    }
}

/// Tenths of a unit, rounded to the nearest (half rounds up).
pub open spec fn scaled_tenths(n: nat, unit: nat) -> nat {
    (10 * n + unit / 2) / unit
}

/// `"X.y"` followed by the unit letter, where `X.y` is `n` in units of
/// `unit`, kept to one fractional digit.
pub open spec fn scaled_str(n: nat, unit: nat, suffix: char) -> Seq<char> {
    dec_str(scaled_tenths(n, unit) / 10) + seq![
        '.',
        dec_digit(scaled_tenths(n, unit) % 10),
        suffix,
    ]
}

/// A size in human units: plain bytes below 1024, then `K`, `M` and `G`
/// with one fractional digit.
pub open spec fn human_size_spec(n: nat) -> Seq<char> {
    if n < 1024 {
        dec_str(n)
    } else if n < 1024 * 1024 {
        scaled_str(n, 1024, 'K')
    } else if n < 1024 * 1024 * 1024 {
        scaled_str(n, 1024 * 1024, 'M')
    } else {
        scaled_str(n, 1024 * 1024 * 1024, 'G')
    }
}

fn scaled_string(n: u64, unit: u64, suffix: char) -> (r: String)
    requires
        1024 <= unit,
    ensures
        r@ == scaled_str(n as nat, unit as nat, suffix),
{
    let t128: u128 = (10 * (n as u128) + (unit as u128) / 2) / (unit as u128);
    proof {
        vstd::arithmetic::div_mod::lemma_div_is_ordered(
            10 * (n as int) + (unit as int) / 2,
            10 * 0xFFFF_FFFF_FFFF_FFFFu64 as int + (unit as int) / 2,
            unit as int,
        );
        vstd::arithmetic::div_mod::lemma_div_is_ordered_by_denominator(
            10 * 0xFFFF_FFFF_FFFF_FFFFu64 as int + (unit as int) / 2,
            1024,
            unit as int,
        );
        assert(t128 <= (10 * 0xFFFF_FFFF_FFFF_FFFFu64 as int + (unit as int) / 2) / 1024);
        assert((unit as int) / 2 < 0xFFFF_FFFF_FFFF_FFFFu128);
    }
    let t: u64 = t128 as u64;
    let mut s = u64_to_string(t / 10);
    push_char(&mut s, '.');
    push_char(&mut s, digit_char(t % 10));
    push_char(&mut s, suffix);
    proof {
        assert(s@ =~= scaled_str(n as nat, unit as nat, suffix));
    }
    s
}

/// A byte count rendered in human units.
pub fn human_size(size: u64) -> (r: String)
    ensures
        r@ == human_size_spec(size as nat),
{
    if size < 1024 {
        u64_to_string(size)
    } else if size < 1024 * 1024 {
        scaled_string(size, 1024, 'K')
    } else if size < 1024 * 1024 * 1024 {
        scaled_string(size, 1024 * 1024, 'M')
    } else {
        scaled_string(size, 1024 * 1024 * 1024, 'G')
    }
}

// ---------------------------------------------------------------------------
// Longest common prefix.
// ---------------------------------------------------------------------------

/// The longest common prefix of two character sequences.
pub open spec fn common_prefix(a: Seq<char>, b: Seq<char>) -> Seq<char>
    decreases a.len(),
{
    if a.len() == 0 || b.len() == 0 || a[0] != b[0] {
        Seq::<char>::empty()
    } else {
        seq![a[0]] + common_prefix(a.skip(1), b.skip(1))
    }
}

/// The longest common prefix of all the sequences: the empty sequence for an
/// empty family, otherwise the fold of `common_prefix` over the family.
pub open spec fn lcp_of(ss: Seq<Seq<char>>) -> Seq<char>
    decreases ss.len(),
{
    if ss.len() == 0 {
        Seq::<char>::empty()
    } else if ss.len() == 1 {
        ss[0]
    } else {
        common_prefix(lcp_of(ss.drop_last()), ss.last())
    }
}

proof fn lemma_cp_from_agreement(a: Seq<char>, b: Seq<char>, j: int)
    requires
        0 <= j <= a.len(),
        j <= b.len(),
        forall|i: int| 0 <= i < j ==> a[i] == b[i],
        j == a.len() || j == b.len() || a[j] != b[j],
    ensures
        common_prefix(a, b) == a.subrange(0, j),
    decreases j,
{
    if j == 0 {
        if !(a.len() == 0 || b.len() == 0 || a[0] != b[0]) {
            assert(false);
        }
        assert(common_prefix(a, b) =~= a.subrange(0, 0));
    } else {
        assert(a[0] == b[0]);
        let a1 = a.skip(1);
        let b1 = b.skip(1);
        assert(forall|i: int| 0 <= i < j - 1 ==> a1[i] == b1[i]);
        lemma_cp_from_agreement(a1, b1, j - 1);
        assert(seq![a[0]] + a1.subrange(0, j - 1) =~= a.subrange(0, j));
    }
}

fn common_prefix_str(a: &str, b: &str) -> (r: String)
    ensures
        r@ == common_prefix(a@, b@),
{
    let an = a.unicode_len();
    let bn = b.unicode_len();
    let mut j: usize = 0;
    let mut done = false;
    while !done && j < an && j < bn
        invariant
            j <= an,
            j <= bn,
            an == a@.len(),
            bn == b@.len(),
            forall|i: int| 0 <= i < j ==> a@[i] == b@[i],
            done ==> j < an && j < bn && a@[j as int] != b@[j as int],
        decreases an - j + if done {
            0int
        } else {
            1int
        },
    {
        if a.get_char(j) == b.get_char(j) {
            j += 1;
        } else {
            done = true;
        }
    }
    proof {
        lemma_cp_from_agreement(a@, b@, j as int);
    }
    let mut out = String::new();
    let mut i: usize = 0;
    while i < j
        invariant
            i <= j,
            j <= a@.len(),
            out@ == a@.subrange(0, i as int),
        decreases j - i,
    {
        push_char(&mut out, a.get_char(i));
        proof {
            assert(out@ =~= a@.subrange(0, i + 1 as int));
        }
        i += 1;
    }
    out
}

/// The longest common prefix of all the strings, computed pairwise in order.
pub fn longest_common_prefix(strs: &Vec<String>) -> (r: String)
    ensures
        r@ == lcp_of(strs.deep_view()),
{
    if strs.len() == 0 {
        return String::new();
    }
    let mut prefix: String = strs[0].clone();
    let mut i: usize = 1;
    proof {
        assert(strs.deep_view().subrange(0, 1) =~= seq![strs.deep_view()[0]]);
        assert(prefix@ == strs.deep_view()[0]);
    }
    while i < strs.len()
        invariant
            1 <= i <= strs.len(),
            prefix@ == lcp_of(strs.deep_view().subrange(0, i as int)),
        decreases strs.len() - i,
    {
        prefix = common_prefix_str(prefix.as_str(), strs[i].as_str());
        proof {
            let dv = strs.deep_view();
            let p1 = dv.subrange(0, i + 1 as int);
            assert(p1.drop_last() =~= dv.subrange(0, i as int));
            assert(p1.last() == dv[i as int]);
        }
        i += 1;
    }
    proof {
        assert(strs.deep_view().subrange(0, i as int) =~= strs.deep_view());
    }
    prefix
}

// ---------------------------------------------------------------------------
// Character positions.
// ---------------------------------------------------------------------------

/// The position of the first occurrence of `c` in `s`, if any.
pub open spec fn first_index_of(s: Seq<char>, c: char) -> Option<nat>
    decreases s.len(),
{
    if s.len() == 0 {
        Option::None
    } else if s[0] == c {
        Option::Some(0)
    } else {
        match first_index_of(s.skip(1), c) {
            Option::Some(i) => Option::Some(i + 1),
            Option::None => Option::None,
        }
    }
}

/// The position of the last occurrence of `c` in `s`, if any.
pub open spec fn last_index_of(s: Seq<char>, c: char) -> Option<nat>
    decreases s.len(),
{
    if s.len() == 0 {
        Option::None
    } else if s.last() == c {
        Option::Some((s.len() - 1) as nat)
    } else {
        last_index_of(s.drop_last(), c)
    }
}

proof fn lemma_first_index_at(s: Seq<char>, c: char, i: int)
    requires
        0 <= i < s.len(),
        forall|j: int| 0 <= j < i ==> s[j] != c,
        s[i] == c,
    ensures
        first_index_of(s, c) == Option::Some(i as nat),
    decreases i,
{
    if i == 0 {
    } else {
        assert(s[0] != c);
        let s1 = s.skip(1);
        assert(s1[i - 1] == c);
        assert(forall|j: int| 0 <= j < i - 1 ==> s1[j] == s[j + 1] && s[j + 1] != c);
        lemma_first_index_at(s1, c, i - 1);
    }
}

proof fn lemma_first_index_none(s: Seq<char>, c: char)
    requires
        forall|j: int| 0 <= j < s.len() ==> s[j] != c,
    ensures
        first_index_of(s, c) is None,
    decreases s.len(),
{
    if s.len() > 0 {
        let s1 = s.skip(1);
        assert(forall|j: int| 0 <= j < s1.len() ==> s1[j] == s[j + 1] && s[j + 1] != c);
        lemma_first_index_none(s1, c);
    }
}

proof fn lemma_last_index_at(s: Seq<char>, c: char, i: int)
    requires
        0 <= i < s.len(),
        forall|j: int| i < j < s.len() ==> s[j] != c,
        s[i] == c,
    ensures
        last_index_of(s, c) == Option::Some(i as nat),
    decreases s.len(),
{
    if i == s.len() - 1 {
    } else {
        assert(s.last() != c);
        let s1 = s.drop_last();
        assert(s1[i] == c);
        assert(forall|j: int| i < j < s1.len() ==> s1[j] == s[j] && s[j] != c);
        lemma_last_index_at(s1, c, i);
    }
}

proof fn lemma_last_index_none(s: Seq<char>, c: char)
    requires
        forall|j: int| 0 <= j < s.len() ==> s[j] != c,
    ensures
        last_index_of(s, c) is None,
    decreases s.len(),
{
    if s.len() > 0 {
        let s1 = s.drop_last();
        assert(forall|j: int| 0 <= j < s1.len() ==> s1[j] == s[j] && s[j] != c);
        lemma_last_index_none(s1, c);
    }
}

/// A found position lies in the sequence and carries the character.
pub proof fn lemma_last_index_bounds(s: Seq<char>, c: char)
    ensures
        match last_index_of(s, c) {
            Option::Some(i) => i < s.len() && s[i as int] == c,
            Option::None => true,
        },
    decreases s.len(),
{
    if s.len() > 0 && s.last() != c {
        lemma_last_index_bounds(s.drop_last(), c);
    }
}

/// The position of the first occurrence of `c` in `s`, if any.
pub fn find_char(s: &str, c: char) -> (r: Option<usize>)
    ensures
        match r {
            Option::Some(i) => first_index_of(s@, c) == Option::Some(i as nat) && i < s@.len()
                && s@[i as int] == c && forall|j: int| 0 <= j < i ==> s@[j] != c,
            Option::None => first_index_of(s@, c) is None && !s@.contains(c),
        },
{
    let n = s.unicode_len();
    let mut i: usize = 0;
    while i < n
        invariant
            i <= n,
            n == s@.len(),
            forall|j: int| 0 <= j < i ==> s@[j] != c,
        decreases n - i,
    {
        if s.get_char(i) == c {
            proof {
                lemma_first_index_at(s@, c, i as int);
            }
            return Option::Some(i);
        }
        i += 1;
    }
    proof {
        lemma_first_index_none(s@, c);
        if s@.contains(c) {
            let j = choose|j: int| 0 <= j < s@.len() && s@[j] == c;
            assert(s@[j] != c);
        }
    }
    Option::None
}

/// The position of the last occurrence of `c` in `s`, if any.
pub fn rfind_char(s: &str, c: char) -> (r: Option<usize>)
    ensures
        match r {
            Option::Some(i) => last_index_of(s@, c) == Option::Some(i as nat) && i < s@.len()
                && s@[i as int] == c && forall|j: int| i < j < s@.len() ==> s@[j] != c,
            Option::None => last_index_of(s@, c) is None && !s@.contains(c),
        },
{
    let n = s.unicode_len();
    let mut i: usize = n;
    while i > 0
        invariant
            i <= n,
            n == s@.len(),
            forall|j: int| i <= j < s@.len() ==> s@[j] != c,
        decreases i,
    {
        i -= 1;
        if s.get_char(i) == c {
            proof {
                lemma_last_index_at(s@, c, i as int);
            }
            return Option::Some(i);
        }
    }
    proof {
        lemma_last_index_none(s@, c);
        if s@.contains(c) {
            let j = choose|j: int| 0 <= j < s@.len() && s@[j] == c;
            assert(s@[j] != c);
        }
    }
    Option::None
}

// ---------------------------------------------------------------------------
// Trailing spaces, character counts.
// ---------------------------------------------------------------------------

/// `s` with every trailing space removed.
pub open spec fn trim_spaces_end(s: Seq<char>) -> Seq<char>
    decreases s.len(),
{
    if s.len() > 0 && s.last() == ' ' {
        trim_spaces_end(s.drop_last())
    } else {
        s
    }
}

proof fn lemma_trim_at(s: Seq<char>, i: int)
    requires
        0 <= i <= s.len(),
        forall|j: int| i <= j < s.len() ==> s[j] == ' ',
        i == 0 || s[i - 1] != ' ',
    ensures
        trim_spaces_end(s) == s.subrange(0, i),
    decreases s.len(),
{
    if s.len() == i {
        assert(s.subrange(0, i) =~= s);
    } else {
        assert(s.last() == ' ');
        let s1 = s.drop_last();
        assert(forall|j: int| i <= j < s1.len() ==> s1[j] == s[j] && s[j] == ' ');
        lemma_trim_at(s1, i);
        assert(s1.subrange(0, i) =~= s.subrange(0, i));
    }
}

/// `s` with every trailing space removed.
pub fn trim_end_spaces(s: &str) -> (r: String)
    ensures
        r@ == trim_spaces_end(s@),
{
    let n = s.unicode_len();
    let mut i: usize = n;
    while i > 0 && s.get_char(i - 1) == ' '
        invariant
            i <= n,
            n == s@.len(),
            forall|j: int| i <= j < s@.len() ==> s@[j] == ' ',
        decreases i,
    {
        i -= 1;
    }
    proof {
        lemma_trim_at(s@, i as int);
    }
    let cut = s.substring_char(0, i);
    cut.to_owned()
}

/// How many times `c` occurs in `s`.
pub open spec fn count_char(s: Seq<char>, c: char) -> nat
    decreases s.len(),
{
    if s.len() == 0 {
        0
    } else {
        count_char(s.drop_last(), c) + if s.last() == c {
            1nat
        } else {
            0nat
        }
    }
}

proof fn lemma_count_char_le_len(s: Seq<char>, c: char)
    ensures
        count_char(s, c) <= s.len(),
    decreases s.len(),
{
    if s.len() > 0 {
        lemma_count_char_le_len(s.drop_last(), c);
    }
}

/// How many times `c` occurs in `s`.
pub fn count_char_str(s: &str, c: char) -> (r: usize)
    ensures
        r as nat == count_char(s@, c),
{
    let n = s.unicode_len();
    let mut cnt: usize = 0;
    let mut i: usize = 0;
    while i < n
        invariant
            i <= n,
            n == s@.len(),
            cnt as nat == count_char(s@.subrange(0, i as int), c),
            cnt <= i,
        decreases n - i,
    {
        proof {
            let p1 = s@.subrange(0, i + 1 as int);
            assert(p1.drop_last() =~= s@.subrange(0, i as int));
            assert(p1.last() == s@[i as int]);
        }
        if s.get_char(i) == c {
            cnt += 1;
        }
        i += 1;
    }
    proof {
        assert(s@.subrange(0, i as int) =~= s@);
    }
    cnt
}

// ---------------------------------------------------------------------------
// Saturating arithmetic on usize.
// ---------------------------------------------------------------------------

/// `a + b`, capped at the top of `usize`.
pub fn sat_add(a: usize, b: usize) -> (r: usize)
    ensures
        r == if a + b <= usize::MAX {
            a + b
        } else {
            usize::MAX as int
        },
{
    if a <= usize::MAX - b {
        a + b
    } else {
        usize::MAX
    }
}

/// `a + b` on `u64`, capped at the top.
pub fn sat_add_u64(a: u64, b: u64) -> (r: u64)
    ensures
        r == if a + b <= u64::MAX {
            a + b
        } else {
            u64::MAX as int
        },
{
    if a <= u64::MAX - b {
        a + b
    } else {
        u64::MAX
    }
}

/// `a - b`, stopping at zero.
pub fn sat_sub(a: usize, b: usize) -> (r: usize)
    ensures
        r == if a >= b {
            a - b
        } else {
            0int
        },
{
    if a >= b {
        a - b
    } else {
        0
    }
}

// ---------------------------------------------------------------------------
// Text lines.
// ---------------------------------------------------------------------------

/// A line with a trailing carriage return stripped.
pub open spec fn strip_cr(l: Seq<char>) -> Seq<char> {
    if l.len() > 0 && l.last() == '\r' {
        l.drop_last()
    } else {
        l
    }
}

/// The lines of a text: split at `\n`, with no phantom line after a final
/// newline, and a trailing `\r` stripped from every line.  Empty text has
/// no lines.
pub open spec fn text_lines(s: Seq<char>) -> Seq<Seq<char>> {
    if s.len() == 0 {
        Seq::<Seq<char>>::empty()
    } else {
        let segs = split_on(s, '\n');
        let kept = if s.last() == '\n' {
            segs.drop_last()
        } else {
            segs
        };
        kept.map_values(|l: Seq<char>| strip_cr(l))
    }
}

/// The lines of a text, as `text_lines` describes them.
pub fn lines_of(s: &str) -> (r: Vec<String>)
    ensures
        r.deep_view() == text_lines(s@),
{
    let n = s.unicode_len();
    if n == 0 {
        let r: Vec<String> = Vec::new();
        proof {
            assert(r.deep_view() =~= text_lines(s@));
        }
        return r;
    }
    let mut segs = split_str(s, '\n');
    if s.get_char(n - 1) == '\n' {
        proof {
            lemma_split_on_nonempty(s@, '\n');
        }
        segs.pop();
    }
    let mut out: Vec<String> = Vec::new();
    let ghost kept = segs.deep_view();
    let mut i: usize = 0;
    while i < segs.len()
        invariant
            i <= segs.len(),
            kept == segs.deep_view(),
            out.deep_view() =~= kept.subrange(0, i as int).map_values(
                |l: Seq<char>| strip_cr(l),
            ),
        decreases segs.len() - i,
    {
        let sg = &segs[i];
        let ghost target = strip_cr(kept[i as int]);
        proof {
            assert(kept[i as int] == segs@[i as int]@);
        }
        let m = sg.as_str().unicode_len();
        let val: String;
        if m > 0 && sg.as_str().get_char(m - 1) == '\r' {
            let chars = str_to_chars(sg.as_str());
            let mut chars2 = chars;
            chars2.pop();
            val = chars_to_string(&chars2);
            proof {
                assert(val@ =~= target);
            }
        } else {
            val = sg.clone();
            proof {
                assert(val@ == target);
            }
        }
        let ghost prev_dv = out.deep_view();
        out.push(val);
        proof {
            assert(out.deep_view() =~= prev_dv.push(target));
            assert(kept.subrange(0, i + 1 as int).map_values(|l: Seq<char>| strip_cr(l)) =~= prev_dv
                .push(target));
        }
        i += 1;
    }
    proof {
        assert(kept.subrange(0, i as int) =~= kept);
        if s@.last() == '\n' {
            assert(kept == split_on(s@, '\n').drop_last());
        } else {
            assert(kept == split_on(s@, '\n'));
        }
    }
    out
}

proof fn lemma_cp_prefix_of_both(a: Seq<char>, b: Seq<char>)
    ensures
        is_prefix_of(common_prefix(a, b), a),
        is_prefix_of(common_prefix(a, b), b),
    decreases a.len(),
{
    if !(a.len() == 0 || b.len() == 0 || a[0] != b[0]) {
        lemma_cp_prefix_of_both(a.skip(1), b.skip(1));
        let cp = common_prefix(a, b);
        let cp1 = common_prefix(a.skip(1), b.skip(1));
        assert(a.subrange(0, cp.len() as int) =~= cp) by {
            assert(forall|k: int|
                0 <= k < cp1.len() ==> cp1[k] == a.skip(1).subrange(0, cp1.len() as int)[k]);
        }
        assert(b.subrange(0, cp.len() as int) =~= cp) by {
            assert(forall|k: int|
                0 <= k < cp1.len() ==> cp1[k] == b.skip(1).subrange(0, cp1.len() as int)[k]);
        }
    } else {
        assert(common_prefix(a, b) =~= a.subrange(0, 0));
        assert(common_prefix(a, b) =~= b.subrange(0, 0));
    }
}

proof fn lemma_prefix_transitive(p: Seq<char>, q: Seq<char>, s: Seq<char>)
    requires
        is_prefix_of(p, q),
        is_prefix_of(q, s),
    ensures
        is_prefix_of(p, s),
{
    assert(s.subrange(0, p.len() as int) =~= p) by {
        assert(forall|k: int|
            0 <= k < p.len() ==> s.subrange(0, q.len() as int)[k] == s[k]);
    }
}

proof fn lemma_cp_longest(p: Seq<char>, a: Seq<char>, b: Seq<char>)
    requires
        is_prefix_of(p, a),
        is_prefix_of(p, b),
    ensures
        is_prefix_of(p, common_prefix(a, b)),
    decreases p.len(),
{
    if p.len() == 0 {
        assert(common_prefix(a, b).subrange(0, 0) =~= p);
    } else {
        assert(a[0] == p[0] && b[0] == p[0]);
        let p1 = p.skip(1);
        assert(is_prefix_of(p1, a.skip(1))) by {
            assert(a.skip(1).subrange(0, p1.len() as int) =~= p1) by {
                assert(forall|k: int| 0 <= k < p.len() ==> a.subrange(0, p.len() as int)[k]
                    == a[k]);
            }
        }
        assert(is_prefix_of(p1, b.skip(1))) by {
            assert(b.skip(1).subrange(0, p1.len() as int) =~= p1) by {
                assert(forall|k: int| 0 <= k < p.len() ==> b.subrange(0, p.len() as int)[k]
                    == b[k]);
            }
        }
        lemma_cp_longest(p1, a.skip(1), b.skip(1));
        let cp = common_prefix(a, b);
        assert(cp.subrange(0, p.len() as int) =~= p) by {
            let cp1 = common_prefix(a.skip(1), b.skip(1));
            assert(forall|k: int| 0 <= k < p1.len() ==> cp1.subrange(0, p1.len() as int)[k]
                == cp1[k]);
        }
    }
}

/// The common prefix of a family is a prefix of every member.
pub proof fn lemma_lcp_is_common_prefix(ss: Seq<Seq<char>>)
    ensures
        forall|k: int| 0 <= k < ss.len() ==> is_prefix_of(lcp_of(ss), #[trigger] ss[k]),
    decreases ss.len(),
{
    if ss.len() == 1 {
        assert(ss[0].subrange(0, ss[0].len() as int) =~= ss[0]);
    } else if ss.len() > 1 {
        lemma_lcp_is_common_prefix(ss.drop_last());
        let l = lcp_of(ss);
        let l0 = lcp_of(ss.drop_last());
        lemma_cp_prefix_of_both(l0, ss.last());
        assert forall|k: int| 0 <= k < ss.len() implies is_prefix_of(l, #[trigger] ss[k]) by {
            if k < ss.len() - 1 {
                assert(is_prefix_of(l0, ss.drop_last()[k]));
                lemma_prefix_transitive(l, l0, ss[k]);
            }
        }
    }
}

/// The common prefix of a non-empty family is the longest: every sequence
/// that prefixes all the members prefixes it.
pub proof fn lemma_lcp_is_longest(ss: Seq<Seq<char>>, p: Seq<char>)
    requires
        ss.len() > 0,
        forall|k: int| 0 <= k < ss.len() ==> is_prefix_of(p, #[trigger] ss[k]),
    ensures
        is_prefix_of(p, lcp_of(ss)),
    decreases ss.len(),
{
    if ss.len() == 1 {
    } else {
        assert(forall|k: int|
            0 <= k < ss.drop_last().len() ==> is_prefix_of(p, #[trigger] ss.drop_last()[k]));
        lemma_lcp_is_longest(ss.drop_last(), p);
        assert(is_prefix_of(p, ss.last()));
        lemma_cp_longest(p, lcp_of(ss.drop_last()), ss.last());
    }
}

/// Resolution yields a canonical form: no segment of a resolved path is
/// empty, `.` or `..`, and none contains a separator — in particular a
/// path can never climb above the root.
pub proof fn lemma_resolved_canonical(p: Seq<char>)
    ensures
        forall|k: int|
            0 <= k < resolved_segs(p).len() ==> {
                let e = #[trigger] resolved_segs(p)[k];
                &&& e.len() > 0
                &&& e != "."@
                &&& e != ".."@
                &&& !e.contains('/')
            },
{
    lemma_split_elems_no_sep(p, '/');
    lemma_norm_elems_clean(split_on(p, '/'), '/');
}

/// Path resolution is idempotent: resolving a canonical path changes nothing.
pub proof fn lemma_resolve_idempotent(p: Seq<char>)
    ensures
        resolved_path(resolved_path(p)) == resolved_path(p),
{
    let n = resolved_segs(p);
    lemma_split_elems_no_sep(p, '/');
    lemma_norm_elems_clean(split_on(p, '/'), '/');
    if n.len() == 0 {
        assert(resolved_path(p) == Seq::<char>::empty());
        assert(split_on(Seq::<char>::empty(), '/') =~~= seq![Seq::<char>::empty()]);
        let single = seq![Seq::<char>::empty()];
        assert(single.drop_last() =~~= Seq::<Seq<char>>::empty());
        assert(single.last().len() == 0);
        assert(normalize_segs(Seq::<Seq<char>>::empty()) =~~= Seq::<Seq<char>>::empty());
        assert(normalize_segs(single) =~~= Seq::<Seq<char>>::empty());
        assert(resolved_path(resolved_path(p)) == Seq::<char>::empty());
    } else {
        lemma_split_join_roundtrip(n, '/');
        lemma_norm_clean_identity(n);
        assert(resolved_segs(join_with(n, '/')) == n);
    }
}

} // verus!
