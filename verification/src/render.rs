use vstd::prelude::*;

verus! {

use crate::format::{fmt_tenths, fmt_whole, spec_fmt_tenths, spec_fmt_whole};
use crate::measurement::{Measurement, zero_measurement};

/// The placeholder token `{{temperature}}`, as bytes.
pub open spec fn temp_token() -> Seq<u8> {
    seq![123u8, 123, 116, 101, 109, 112, 101, 114, 97, 116, 117, 114, 101, 125, 125]
}

/// The placeholder token `{{pressure}}`, as bytes.
pub open spec fn press_token() -> Seq<u8> {
    seq![123u8, 123, 112, 114, 101, 115, 115, 117, 114, 101, 125, 125]
}

/// The placeholder token `{{humidity}}`, as bytes.
pub open spec fn hum_token() -> Seq<u8> {
    seq![123u8, 123, 104, 117, 109, 105, 100, 105, 116, 121, 125, 125]
}

/// The placeholder token `{{temperature}}`, as bytes.
pub fn temperature_token() -> (v: Vec<u8>)
    ensures
        v@ == temp_token(),
{
    let mut v: Vec<u8> = Vec::new();
    v.push(123);
    v.push(123);
    v.push(116);
    v.push(101);
    v.push(109);
    v.push(112);
    v.push(101);
    v.push(114);
    v.push(97);
    v.push(116);
    v.push(117);
    v.push(114);
    v.push(101);
    v.push(125);
    v.push(125);
    proof {
        assert(v@ =~= temp_token());
    }
    v
}

/// The placeholder token `{{pressure}}`, as bytes.
pub fn pressure_token() -> (v: Vec<u8>)
    ensures
        v@ == press_token(),
{
    let mut v: Vec<u8> = Vec::new();
    v.push(123);
    v.push(123);
    v.push(112);
    v.push(114);
    v.push(101);
    v.push(115);
    v.push(115);
    v.push(117);
    v.push(114);
    v.push(101);
    v.push(125);
    v.push(125);
    proof {
        assert(v@ =~= press_token());
    }
    v
}

/// The placeholder token `{{humidity}}`, as bytes.
pub fn humidity_token() -> (v: Vec<u8>)
    ensures
        v@ == hum_token(),
{
    let mut v: Vec<u8> = Vec::new();
    v.push(123);
    v.push(123);
    v.push(104);
    v.push(117);
    v.push(109);
    v.push(105);
    v.push(100);
    v.push(105);
    v.push(116);
    v.push(121);
    v.push(125);
    v.push(125);
    proof {
        assert(v@ =~= hum_token());
    }
    v
}

/// True iff `pat` occurs in `s` starting at index `i`.
pub open spec fn occurs_at(s: Seq<u8>, pat: Seq<u8>, i: int) -> bool {
    0 <= i && i + pat.len() <= s.len() && s.subrange(i, i + pat.len()) == pat
}

/// True iff `pat` occurs as a contiguous run somewhere inside `s`.
pub open spec fn occurs_in(s: Seq<u8>, pat: Seq<u8>) -> bool {
    exists|i: int| #[trigger] occurs_at(s, pat, i)
}

/// Every occurrence of `pat` in `s` replaced by `sub`, scanning left to
/// right without overlap; an empty pattern leaves `s` unchanged.
pub open spec fn spec_replace_all(s: Seq<u8>, pat: Seq<u8>, sub: Seq<u8>) -> Seq<u8>
    decreases s.len(),
{
    if pat.len() == 0 || s.len() < pat.len() {
        s
    } else if s.subrange(0, pat.len() as int) == pat {
        sub + spec_replace_all(s.skip(pat.len() as int), pat, sub)
    } else {
        seq![s[0]] + spec_replace_all(s.skip(1), pat, sub)
    }
}

/// True iff `pat` occurs in `s` starting exactly at index `i`.
fn matches_at(s: &[u8], i: usize, pat: &[u8]) -> (r: bool)
    requires
        i + pat@.len() <= s@.len(),
    ensures
        r == (s@.subrange(i as int, i as int + pat@.len() as int) == pat@),
{
    let n = s.len();
    let mut j: usize = 0;
    while j < pat.len()
        invariant
            n == s@.len(),
            i + pat@.len() <= s@.len(),
            j <= pat@.len(),
            forall|k: int| 0 <= k < j ==> s@[i + k] == pat@[k],
        decreases pat@.len() - j,
    {
        if s[i + j] != pat[j] {
            proof {
                assert(s@.subrange(i as int, i as int + pat@.len() as int)[j as int] == s@[i
                    + j]);
            }
            return false;
        }
        j += 1;
    }
    proof {
        assert(s@.subrange(i as int, i as int + pat@.len() as int) =~= pat@);
    }
    true
}

/// Appends every byte of `xs` to `out`.
fn push_all(out: &mut Vec<u8>, xs: &[u8])
    ensures
        final(out)@ == old(out)@ + xs@,
{
    let mut k: usize = 0;
    while k < xs.len()
        invariant
            k <= xs@.len(),
            out@ == old(out)@ + xs@.subrange(0, k as int),
        decreases xs@.len() - k,
    {
        out.push(xs[k]);
        proof {
            assert(out@ =~= old(out)@ + xs@.subrange(0, k as int + 1));
        }
        k += 1;
    }
    proof {
        assert(old(out)@ + xs@.subrange(0, xs@.len() as int) =~= old(out)@ + xs@);
    }
}

/// Replaces every occurrence of `pat` in `s` by `sub`, scanning left to
/// right without overlap, exactly as [`spec_replace_all`] states.
pub fn replace_all(s: &[u8], pat: &[u8], sub: &[u8]) -> (r: Vec<u8>)
    ensures
        r@ == spec_replace_all(s@, pat@, sub@),
{
    let mut out: Vec<u8> = Vec::new();
    if pat.len() == 0 {
        push_all(&mut out, s);
        proof {
            assert(out@ =~= spec_replace_all(s@, pat@, sub@));
        }
        return out;
    }
    let mut i: usize = 0;
    proof {
        assert(s@.skip(0) =~= s@);
        assert(out@ + spec_replace_all(s@, pat@, sub@) =~= spec_replace_all(s@, pat@, sub@));
    }
    while i < s.len()
        invariant
            pat@.len() > 0,
            i <= s@.len(),
            spec_replace_all(s@, pat@, sub@) == out@ + spec_replace_all(
                s@.skip(i as int),
                pat@,
                sub@,
            ),
        decreases s@.len() - i,
    {
        let ghost suffix = s@.skip(i as int);
        if pat.len() <= s.len() - i && matches_at(s, i, pat) {
            proof {
                assert(suffix.subrange(0, pat@.len() as int) =~= s@.subrange(
                    i as int,
                    i as int + pat@.len() as int,
                ));
                assert(suffix.skip(pat@.len() as int) =~= s@.skip(i as int + pat@.len() as int));
                assert(spec_replace_all(suffix, pat@, sub@) == sub@ + spec_replace_all(
                    s@.skip(i as int + pat@.len() as int),
                    pat@,
                    sub@,
                ));
            }
            push_all(&mut out, sub);
            i += pat.len();
        } else {
            proof {
                if pat@.len() <= s@.len() - i {
                    assert(suffix.subrange(0, pat@.len() as int) =~= s@.subrange(
                        i as int,
                        i as int + pat@.len() as int,
                    ));
                } else {
                    assert(suffix.len() < pat@.len());
                    assert(s@.skip(i as int + 1).len() < pat@.len());
                }
                assert(suffix.skip(1) =~= s@.skip(i as int + 1));
                assert(suffix =~= seq![s@[i as int]] + s@.skip(i as int + 1));
                assert(spec_replace_all(suffix, pat@, sub@) == seq![s@[i as int]]
                    + spec_replace_all(s@.skip(i as int + 1), pat@, sub@));
            }
            out.push(s[i]);
            i += 1;
        }
    }
    proof {
        assert(s@.skip(s@.len() as int) =~= Seq::<u8>::empty());
        assert(out@ + Seq::<u8>::empty() =~= out@);
    }
    out
}

/// The reading a renderer shows: the snapshot's value, or the all-zero
/// reading when no sample has been published yet.
pub open spec fn measurement_or_default(snapshot: Option<Measurement>) -> Measurement {
    match snapshot {
        Some(m) => m,
        None => zero_measurement(),
    }
}

/// What rendering produces: each placeholder token in the template
/// replaced by the fixed-format rendering of its field — temperature and
/// humidity with one decimal place, pressure with none. A missing
/// snapshot renders the all-zero defaults; a template without a token
/// keeps that token untouched.
pub open spec fn spec_render(snapshot: Option<Measurement>, template: Seq<u8>) -> Seq<u8> {
    let m = measurement_or_default(snapshot);
    spec_replace_all(
        spec_replace_all(
            spec_replace_all(template, temp_token(), spec_fmt_tenths(m.temperature_centi as int)),
            press_token(),
            spec_fmt_whole(m.pressure_centi as int),
        ),
        hum_token(),
        spec_fmt_tenths(m.humidity_centi as int),
    )
}

/// Pure renderer: substitutes the snapshot's formatted fields (or the
/// all-zero defaults) for the three placeholder tokens of `template` and
/// returns a fresh document; the template itself is never modified.
pub fn render(snapshot: Option<Measurement>, template: &[u8]) -> (r: Vec<u8>)
    ensures
        r@ == spec_render(snapshot, template@),
{
    let m = match snapshot {
        Some(m) => m,
        None => Measurement::new(0, 0, 0),
    };
    let tt = temperature_token();
    let pt = pressure_token();
    let ht = humidity_token();
    let tv = fmt_tenths(m.temperature_centi);
    let pv = fmt_whole(m.pressure_centi);
    let hv = fmt_tenths(m.humidity_centi);
    let step1 = replace_all(template, tt.as_slice(), tv.as_slice());
    let step2 = replace_all(step1.as_slice(), pt.as_slice(), pv.as_slice());
    let step3 = replace_all(step2.as_slice(), ht.as_slice(), hv.as_slice());
    step3
}

/// Renderer determinism: the output is a pure function of the snapshot
/// and the template, so any two renderings of identical inputs — however
/// many and however interleaved the calls — are byte-identical.
pub proof fn lemma_render_deterministic(
    snapshot: Option<Measurement>,
    template: Seq<u8>,
    r1: Seq<u8>,
    r2: Seq<u8>,
)
    requires
        r1 == spec_render(snapshot, template),
        r2 == spec_render(snapshot, template),
    ensures
        r1 == r2,
{
}

/// Renderer totality over a missing snapshot: rendering with no reading
/// is the same well-formed document as rendering the all-zero reading,
/// so a client is always answered, never shown an error.
pub proof fn lemma_render_none_uses_defaults(template: Seq<u8>)
    ensures
        spec_render(None, template) == spec_render(Some(zero_measurement()), template),
{
}

/// Occurrences inside a suffix correspond to shifted occurrences of the
/// whole document.
proof fn lemma_occurs_at_skip(s: Seq<u8>, pat: Seq<u8>, c: int, k: int)
    requires
        0 <= c <= s.len(),
    ensures
        occurs_at(s.skip(c), pat, k) <==> (0 <= k && occurs_at(s, pat, k + c)),
{
    if 0 <= k && k + pat.len() <= s.len() - c {
        assert(s.skip(c).subrange(k, k + pat.len()) =~= s.subrange(k + c, k + c + pat.len()));
    }
}

/// A document without a given placeholder passes through substitution
/// unchanged: a malformed template still yields a document, with the
/// missing token simply left alone.
pub proof fn lemma_replace_all_absent(s: Seq<u8>, pat: Seq<u8>, sub: Seq<u8>)
    requires
        pat.len() > 0,
        !occurs_in(s, pat),
    ensures
        spec_replace_all(s, pat, sub) == s,
    decreases s.len(),
{
    if s.len() < pat.len() {
    } else {
        assert(!occurs_at(s, pat, 0));
        assert forall|i: int| !(#[trigger] occurs_at(s.skip(1), pat, i)) by {
            lemma_occurs_at_skip(s, pat, 1, i);
        }
        lemma_replace_all_absent(s.skip(1), pat, sub);
        assert(seq![s[0]] + s.skip(1) =~= s);
    }
}

/// A template in which no placeholder occurs renders to itself, whatever
/// the snapshot: substitution touches placeholder tokens and nothing else.
pub proof fn lemma_render_without_tokens(snapshot: Option<Measurement>, t: Seq<u8>)
    requires
        !occurs_in(t, temp_token()),
        !occurs_in(t, press_token()),
        !occurs_in(t, hum_token()),
    ensures
        spec_render(snapshot, t) == t,
{
    let m = measurement_or_default(snapshot);
    lemma_replace_all_absent(t, temp_token(), spec_fmt_tenths(m.temperature_centi as int));
    lemma_replace_all_absent(t, press_token(), spec_fmt_whole(m.pressure_centi as int));
    lemma_replace_all_absent(t, hum_token(), spec_fmt_tenths(m.humidity_centi as int));
}

/// Wherever a placeholder occurs in the document, the substituted value
/// occurs in the output of the substitution.
pub proof fn lemma_replace_all_found(s: Seq<u8>, pat: Seq<u8>, sub: Seq<u8>)
    requires
        pat.len() > 0,
        occurs_in(s, pat),
    ensures
        occurs_in(spec_replace_all(s, pat, sub), sub),
    decreases s.len(),
{
    let i = choose|i: int| #[trigger] occurs_at(s, pat, i);
    let r = spec_replace_all(s, pat, sub);
    if s.subrange(0, pat.len() as int) == pat {
        assert(r == sub + spec_replace_all(s.skip(pat.len() as int), pat, sub));
        assert(r.subrange(0, sub.len() as int) =~= sub);
        assert(occurs_at(r, sub, 0));
    } else {
        assert(i != 0);
        lemma_occurs_at_skip(s, pat, 1, i - 1);
        assert(occurs_at(s.skip(1), pat, i - 1));
        lemma_replace_all_found(s.skip(1), pat, sub);
        let rest = spec_replace_all(s.skip(1), pat, sub);
        let j = choose|j: int| #[trigger] occurs_at(rest, sub, j);
        assert(r == seq![s[0]] + rest);
        assert(r.subrange(1 + j, 1 + j + sub.len()) =~= rest.subrange(j, j + sub.len()));
        assert(occurs_at(r, sub, 1 + j));
    }
}

/// If the placeholder matches nowhere among the first `e` positions, the
/// substitution scan copies those `e` bytes through unchanged.
proof fn lemma_replace_prefix_intact(s: Seq<u8>, pat: Seq<u8>, sub: Seq<u8>, e: int)
    requires
        pat.len() > 0,
        0 <= e <= s.len(),
        forall|k: int| 0 <= k < e ==> !occurs_at(s, pat, k),
    ensures
        spec_replace_all(s, pat, sub) == s.subrange(0, e) + spec_replace_all(
            s.skip(e),
            pat,
            sub,
        ),
    decreases e,
{
    let r = spec_replace_all(s, pat, sub);
    if e == 0 {
        assert(s.skip(0) =~= s);
        assert(s.subrange(0, 0) + spec_replace_all(s, pat, sub) =~= spec_replace_all(
            s,
            pat,
            sub,
        ));
    } else if s.len() < pat.len() {
        assert(s.skip(e).len() < pat.len());
        assert(s.subrange(0, e) + s.skip(e) =~= s);
    } else {
        assert(!occurs_at(s, pat, 0));
        assert(s.subrange(0, pat.len() as int) != pat);
        let s2 = s.skip(1);
        assert forall|k: int| 0 <= k < e - 1 implies !occurs_at(s2, pat, k) by {
            lemma_occurs_at_skip(s, pat, 1, k);
        }
        lemma_replace_prefix_intact(s2, pat, sub, e - 1);
        assert(s2.skip(e - 1) =~= s.skip(e));
        assert(r == seq![s[0]] + spec_replace_all(s2, pat, sub));
        assert(seq![s[0]] + (s2.subrange(0, e - 1) + spec_replace_all(s2.skip(e - 1), pat, sub))
            =~= s.subrange(0, e) + spec_replace_all(s.skip(e), pat, sub));
    }
}

/// An occurrence of `q` that no occurrence of the placeholder overlaps
/// survives the substitution: the replaced stretches lie entirely to its
/// left or right, so its bytes are carried into the output.
pub proof fn lemma_occurrence_survives(
    s: Seq<u8>,
    pat: Seq<u8>,
    sub: Seq<u8>,
    q: Seq<u8>,
    i: int,
)
    requires
        pat.len() > 0,
        q.len() > 0,
        occurs_at(s, q, i),
        forall|k: int| #[trigger] occurs_at(s, pat, k) ==> k + pat.len() <= i || i + q.len() <= k,
    ensures
        occurs_in(spec_replace_all(s, pat, sub), q),
    decreases s.len(),
{
    let r = spec_replace_all(s, pat, sub);
    if s.len() < pat.len() {
        assert(occurs_at(r, q, i));
    } else if s.subrange(0, pat.len() as int) == pat {
        assert(occurs_at(s, pat, 0));
        assert(pat.len() <= i);
        let s2 = s.skip(pat.len() as int);
        let rest = spec_replace_all(s2, pat, sub);
        lemma_occurs_at_skip(s, q, pat.len() as int, i - pat.len());
        assert forall|k: int| #[trigger] occurs_at(s2, pat, k) implies k + pat.len() <= i
            - pat.len() || (i - pat.len()) + q.len() <= k by {
            lemma_occurs_at_skip(s, pat, pat.len() as int, k);
        }
        lemma_occurrence_survives(s2, pat, sub, q, i - pat.len());
        let j = choose|j: int| #[trigger] occurs_at(rest, q, j);
        assert(r == sub + rest);
        assert(r.subrange(sub.len() + j, sub.len() + j + q.len()) =~= rest.subrange(
            j,
            j + q.len(),
        ));
        assert(occurs_at(r, q, sub.len() + j));
    } else if i > 0 {
        let s2 = s.skip(1);
        let rest = spec_replace_all(s2, pat, sub);
        lemma_occurs_at_skip(s, q, 1, i - 1);
        assert forall|k: int| #[trigger] occurs_at(s2, pat, k) implies k + pat.len() <= i - 1 || (
        i - 1) + q.len() <= k by {
            lemma_occurs_at_skip(s, pat, 1, k);
        }
        lemma_occurrence_survives(s2, pat, sub, q, i - 1);
        let j = choose|j: int| #[trigger] occurs_at(rest, q, j);
        assert(r == seq![s[0]] + rest);
        assert(r.subrange(1 + j, 1 + j + q.len()) =~= rest.subrange(j, j + q.len()));
        assert(occurs_at(r, q, 1 + j));
    } else {
        assert forall|k: int| 0 <= k < q.len() implies !occurs_at(s, pat, k) by {
            if occurs_at(s, pat, k) {
                assert(k + pat.len() <= 0 || q.len() <= k);
            }
        }
        lemma_replace_prefix_intact(s, pat, sub, q.len() as int);
        assert(s.subrange(0, q.len() as int) == q);
        assert(r.subrange(0, q.len() as int) =~= q);
        assert(occurs_at(r, q, 0));
    }
}

/// The shape the three placeholder tokens share: two leading braces, no
/// further brace anywhere, and a distinguishing byte right after them.
proof fn lemma_token_shapes()
    ensures
        temp_token().len() == 15,
        press_token().len() == 12,
        hum_token().len() == 12,
        temp_token()[0] == 123 && temp_token()[1] == 123 && temp_token()[2] == 116,
        press_token()[0] == 123 && press_token()[1] == 123 && press_token()[2] == 112,
        hum_token()[0] == 123 && hum_token()[1] == 123 && hum_token()[2] == 104,
        forall|p: int| 2 <= p < temp_token().len() ==> temp_token()[p] != 123,
        forall|p: int| 2 <= p < press_token().len() ==> press_token()[p] != 123,
        forall|p: int| 2 <= p < hum_token().len() ==> hum_token()[p] != 123,
        forall|p: int|
            0 <= p < press_token().len() ==> press_token()[p] != 48 && press_token()[p] != 46,
        forall|p: int|
            0 <= p < hum_token().len() ==> hum_token()[p] != 48 && hum_token()[p] != 46,
{
}

/// Occurrences of two distinct brace-delimited tokens never overlap:
/// both open with `{{`, neither holds another brace, and they differ in
/// the byte right after the braces, so neither can begin inside the other.
proof fn lemma_tokens_disjoint(s: Seq<u8>, x: Seq<u8>, y: Seq<u8>, a: int, b: int)
    requires
        occurs_at(s, x, a),
        occurs_at(s, y, b),
        x.len() >= 3,
        y.len() >= 3,
        x[0] == 123 && x[1] == 123,
        y[0] == 123 && y[1] == 123,
        forall|p: int| 2 <= p < x.len() ==> x[p] != 123,
        forall|p: int| 2 <= p < y.len() ==> y[p] != 123,
        x[2] != y[2],
    ensures
        a + x.len() <= b || b + y.len() <= a,
{
    if a + x.len() > b && b + y.len() > a {
        let xs = s.subrange(a, a + x.len());
        let ys = s.subrange(b, b + y.len());
        if a <= b {
            assert(xs[b - a] == s[b]);
            assert(ys[0] == s[b]);
            assert(x[b - a] == 123);
            if b == a {
                assert(xs[2] == s[a + 2]);
                assert(ys[2] == s[b + 2]);
                assert(false);
            } else if b == a + 1 {
                assert(xs[2] == s[a + 2]);
                assert(ys[1] == s[b + 1]);
                assert(false);
            } else {
                assert(false);
            }
        } else {
            assert(ys[a - b] == s[a]);
            assert(xs[0] == s[a]);
            assert(y[a - b] == 123);
            if a == b + 1 {
                assert(ys[2] == s[b + 2]);
                assert(xs[1] == s[a + 1]);
                assert(false);
            } else {
                assert(false);
            }
        }
    }
}

/// The humidity default reaches the output: wherever the template
/// carries the humidity placeholder, rendering without a reading yields
/// a document containing `0.0` (and with it `0`) — the earlier passes
/// cannot damage that placeholder, because distinct tokens never overlap.
pub proof fn lemma_render_none_substitutes_humidity(t: Seq<u8>)
    requires
        occurs_in(t, hum_token()),
    ensures
        occurs_in(spec_render(None, t), seq![48u8, 46, 48]),
        occurs_in(spec_render(None, t), seq![48u8]),
{
    lemma_token_shapes();
    let m = measurement_or_default(None);
    let dt = spec_fmt_tenths(m.temperature_centi as int);
    let dp = spec_fmt_whole(m.pressure_centi as int);
    let dh = spec_fmt_tenths(m.humidity_centi as int);
    assert(dh =~= seq![48u8, 46, 48]);
    let s1 = spec_replace_all(t, temp_token(), dt);
    let s2 = spec_replace_all(s1, press_token(), dp);
    let s3 = spec_replace_all(s2, hum_token(), dh);
    assert(spec_render(None, t) == s3);

    // the humidity placeholder survives the temperature pass ...
    let b1 = choose|i: int| #[trigger] occurs_at(t, hum_token(), i);
    assert forall|k: int| #[trigger] occurs_at(t, temp_token(), k) implies k + temp_token().len()
        <= b1 || b1 + hum_token().len() <= k by {
        lemma_tokens_disjoint(t, temp_token(), hum_token(), k, b1);
    }
    lemma_occurrence_survives(t, temp_token(), dt, hum_token(), b1);

    // ... and the pressure pass ...
    let b2 = choose|i: int| #[trigger] occurs_at(s1, hum_token(), i);
    assert forall|k: int| #[trigger] occurs_at(s1, press_token(), k) implies k
        + press_token().len() <= b2 || b2 + hum_token().len() <= k by {
        lemma_tokens_disjoint(s1, press_token(), hum_token(), k, b2);
    }
    lemma_occurrence_survives(s1, press_token(), dp, hum_token(), b2);

    // ... so its own pass substitutes the default into the output.
    lemma_replace_all_found(s2, hum_token(), dh);
    let j = choose|j: int| #[trigger] occurs_at(s3, dh, j);
    assert(s3.subrange(j, j + dh.len())[0] == s3[j]);
    assert(s3.subrange(j, j + 1) =~= seq![48u8]);
    assert(occurs_at(s3, seq![48u8], j));
    assert(occurs_at(s3, seq![48u8, 46, 48], j));
}

/// A stretch of digit-and-dot bytes and a placeholder token never
/// overlap: the token holds no digit and no dot.
proof fn lemma_digits_token_disjoint(s: Seq<u8>, d: Seq<u8>, tok: Seq<u8>, a: int, k: int)
    requires
        occurs_at(s, d, a),
        occurs_at(s, tok, k),
        d.len() > 0,
        tok.len() > 0,
        forall|p: int| 0 <= p < d.len() ==> d[p] == 48 || d[p] == 46,
        forall|p: int| 0 <= p < tok.len() ==> tok[p] != 48 && tok[p] != 46,
    ensures
        k + tok.len() <= a || a + d.len() <= k,
{
    if k + tok.len() > a && a + d.len() > k {
        let p = if a >= k {
            a
        } else {
            k
        };
        let ds = s.subrange(a, a + d.len());
        let ts = s.subrange(k, k + tok.len());
        assert(ds[p - a] == s[p]);
        assert(ts[p - k] == s[p]);
        assert(d[p - a] == 48 || d[p - a] == 46);
        assert(tok[p - k] != 48 && tok[p - k] != 46);
        assert(false);
    }
}

/// The temperature default reaches the output: wherever the template
/// carries the temperature placeholder, rendering without a reading
/// yields a document containing `0.0` — the later passes cannot touch
/// the substituted digits, which share no byte with their tokens.
pub proof fn lemma_render_none_substitutes_temperature(t: Seq<u8>)
    requires
        occurs_in(t, temp_token()),
    ensures
        occurs_in(spec_render(None, t), seq![48u8, 46, 48]),
{
    lemma_token_shapes();
    let m = measurement_or_default(None);
    let dt = spec_fmt_tenths(m.temperature_centi as int);
    let dp = spec_fmt_whole(m.pressure_centi as int);
    let dh = spec_fmt_tenths(m.humidity_centi as int);
    assert(dt =~= seq![48u8, 46, 48]);
    let s1 = spec_replace_all(t, temp_token(), dt);
    let s2 = spec_replace_all(s1, press_token(), dp);
    let s3 = spec_replace_all(s2, hum_token(), dh);
    assert(spec_render(None, t) == s3);

    lemma_replace_all_found(t, temp_token(), dt);

    let a1 = choose|i: int| #[trigger] occurs_at(s1, dt, i);
    assert forall|k: int| #[trigger] occurs_at(s1, press_token(), k) implies k
        + press_token().len() <= a1 || a1 + dt.len() <= k by {
        lemma_digits_token_disjoint(s1, dt, press_token(), a1, k);
    }
    lemma_occurrence_survives(s1, press_token(), dp, dt, a1);

    let a2 = choose|i: int| #[trigger] occurs_at(s2, dt, i);
    assert forall|k: int| #[trigger] occurs_at(s2, hum_token(), k) implies k + hum_token().len()
        <= a2 || a2 + dt.len() <= k by {
        lemma_digits_token_disjoint(s2, dt, hum_token(), a2, k);
    }
    lemma_occurrence_survives(s2, hum_token(), dh, dt, a2);
}

/// The pressure default reaches the output: wherever the template
/// carries the pressure placeholder, rendering without a reading yields
/// a document containing `0` — the placeholder survives the temperature
/// pass, and the humidity pass cannot touch the substituted digit.
pub proof fn lemma_render_none_substitutes_pressure(t: Seq<u8>)
    requires
        occurs_in(t, press_token()),
    ensures
        occurs_in(spec_render(None, t), seq![48u8]),
{
    lemma_token_shapes();
    let m = measurement_or_default(None);
    let dt = spec_fmt_tenths(m.temperature_centi as int);
    let dp = spec_fmt_whole(m.pressure_centi as int);
    let dh = spec_fmt_tenths(m.humidity_centi as int);
    assert(dp =~= seq![48u8]);
    let s1 = spec_replace_all(t, temp_token(), dt);
    let s2 = spec_replace_all(s1, press_token(), dp);
    let s3 = spec_replace_all(s2, hum_token(), dh);
    assert(spec_render(None, t) == s3);

    let b1 = choose|i: int| #[trigger] occurs_at(t, press_token(), i);
    assert forall|k: int| #[trigger] occurs_at(t, temp_token(), k) implies k + temp_token().len()
        <= b1 || b1 + press_token().len() <= k by {
        lemma_tokens_disjoint(t, temp_token(), press_token(), k, b1);
    }
    lemma_occurrence_survives(t, temp_token(), dt, press_token(), b1);

    lemma_replace_all_found(s1, press_token(), dp);

    let a2 = choose|i: int| #[trigger] occurs_at(s2, dp, i);
    assert forall|k: int| #[trigger] occurs_at(s2, hum_token(), k) implies k + hum_token().len()
        <= a2 || a2 + dp.len() <= k by {
        lemma_digits_token_disjoint(s2, dp, hum_token(), a2, k);
    }
    lemma_occurrence_survives(s2, hum_token(), dh, dp, a2);
}

} // verus!
