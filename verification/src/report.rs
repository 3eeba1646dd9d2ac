use vstd::prelude::*;
use vstd::utf8::encode_utf8;
use crate::text::{lex_le, lemma_lex_total, lemma_lex_transitive, lemma_lex_antisymmetric, lemma_lex_first_difference, bytes_le, byte_substring, contains_bytes, string_views};
use crate::uptime::UptimeCalc;

verus! {

/// The UTF-8 bytes of a monitor's name, by which names are ordered.
pub open spec fn name_bytes(c: UptimeCalc) -> Seq<u8> {
    encode_utf8(c.name@)
}

/// `a` may stand before `b` in the report: monitors at exactly 100% come
/// first, ordered by name; the others follow from the highest percentage to
/// the lowest.
pub open spec fn report_le(a: UptimeCalc, b: UptimeCalc) -> bool {
    if a.percentage.is_full() {
        !b.percentage.is_full() || lex_le(name_bytes(a), name_bytes(b))
    } else {
        !b.percentage.is_full() && b.percentage.rank() <= a.percentage.rank()
    }
}

/// `a` and `b` take the same place in the report order.
pub open spec fn report_equiv(a: UptimeCalc, b: UptimeCalc) -> bool {
    report_le(a, b) && report_le(b, a)
}

/// Each entry may stand before every later one.
pub open spec fn report_sorted(s: Seq<UptimeCalc>) -> bool {
    forall|i: int, j: int| 0 <= i < j < s.len() ==> report_le(#[trigger] s[i], #[trigger] s[j])
}

/// The entries of `s` that take the same place as `e`, in their order in `s`.
pub open spec fn equivalents(s: Seq<UptimeCalc>, e: UptimeCalc) -> Seq<UptimeCalc> {
    s.filter(|x: UptimeCalc| report_equiv(x, e))
}

/// The report order is total.
pub proof fn lemma_report_total(a: UptimeCalc, b: UptimeCalc)
    ensures
        report_le(a, b) || report_le(b, a),
{
    lemma_lex_total(name_bytes(a), name_bytes(b));
}

/// The report order is transitive.
pub proof fn lemma_report_transitive(a: UptimeCalc, b: UptimeCalc, c: UptimeCalc)
    requires
        report_le(a, b),
        report_le(b, c),
    ensures
        report_le(a, c),
{
    if a.percentage.is_full() && b.percentage.is_full() && c.percentage.is_full() {
        lemma_lex_transitive(name_bytes(a), name_bytes(b), name_bytes(c));
    }
}

/// In a report-ordered list the monitors at exactly 100% come first, in the
/// byte order of their names, and the others follow from the highest
/// percentage to the lowest.
pub proof fn lemma_report_sections(s: Seq<UptimeCalc>)
    requires
        report_sorted(s),
    ensures
        forall|i: int, j: int|
            0 <= i < j < s.len() && (#[trigger] s[j]).percentage.is_full() ==> (#[trigger] s[i]).percentage.is_full(),
        forall|i: int, j: int|
            0 <= i < j < s.len() && (#[trigger] s[i]).percentage.is_full() && (#[trigger] s[j]).percentage.is_full()
                ==> lex_le(name_bytes(s[i]), name_bytes(s[j])),
        forall|i: int, j: int|
            0 <= i < j < s.len() && !(#[trigger] s[i]).percentage.is_full() && !(#[trigger] s[j]).percentage.is_full()
                ==> s[j].percentage.rank() <= s[i].percentage.rank(),
{
    assert forall|i: int, j: int| 0 <= i < j < s.len() implies report_le(#[trigger] s[i], #[trigger] s[j]) by {}
}

/// In a report-ordered list, of two monitors at exactly 100% whose names
/// first differ at byte `k`, the one with the smaller byte there comes first,
/// however much the names share before it.
pub proof fn lemma_full_names_by_first_difference(s: Seq<UptimeCalc>, i: int, j: int, k: int)
    requires
        report_sorted(s),
        0 <= i < j < s.len(),
        s[i].percentage.is_full(),
        s[j].percentage.is_full(),
        0 <= k < name_bytes(s[i]).len(),
        k < name_bytes(s[j]).len(),
        name_bytes(s[i]).take(k) == name_bytes(s[j]).take(k),
        name_bytes(s[i])[k] != name_bytes(s[j])[k],
    ensures
        name_bytes(s[i])[k] < name_bytes(s[j])[k],
{
    assert(report_le(s[i], s[j]));
    lemma_lex_first_difference(name_bytes(s[i]), name_bytes(s[j]), k);
}

/// Two monitors at exactly 100% each of which may stand before the other
/// have the same name: distinct names never tie.
pub proof fn lemma_full_names_never_tie(a: UptimeCalc, b: UptimeCalc)
    requires
        a.percentage.is_full(),
        b.percentage.is_full(),
        report_le(a, b),
        report_le(b, a),
    ensures
        name_bytes(a) == name_bytes(b),
{
    lemma_lex_antisymmetric(name_bytes(a), name_bytes(b));
}

/// Every entry takes its own place.
proof fn lemma_report_reflexive(a: UptimeCalc)
    ensures
        report_le(a, a),
{
    lemma_lex_total(name_bytes(a), name_bytes(a));
}

/// The equal-placed entries of `seq![x] + s`.
proof fn lemma_equivalents_prepend(s: Seq<UptimeCalc>, x: UptimeCalc, e: UptimeCalc)
    ensures
        equivalents(seq![x] + s, e) == (if report_equiv(x, e) {
            seq![x]
        } else {
            Seq::empty()
        }) + equivalents(s, e),
{
    s.lemma_filter_prepend(x, |y: UptimeCalc| report_equiv(y, e));
}

/// The report order leaves nothing open: two report-ordered lists in which
/// the entries of each place come in the same order are the same list. So
/// `sort_for_report` has exactly one possible result for each input.
pub proof fn lemma_report_order_unique(a: Seq<UptimeCalc>, b: Seq<UptimeCalc>)
    requires
        report_sorted(a),
        report_sorted(b),
        forall|e: UptimeCalc| #[trigger] equivalents(a, e) == equivalents(b, e),
    ensures
        a == b,
    decreases a.len() + b.len(),
{
    if a.len() == 0 && b.len() == 0 {
        assert(a =~= b);
    } else if a.len() == 0 || b.len() == 0 {
        let x = if a.len() > 0 { a[0] } else { b[0] };
        let s = if a.len() > 0 { a } else { b };
        let t = if a.len() > 0 { b } else { a };
        lemma_report_reflexive(x);
        assert(s =~= seq![x] + s.drop_first());
        lemma_equivalents_prepend(s.drop_first(), x, x);
        assert(equivalents(s, x).len() > 0);
        assert(t =~= Seq::<UptimeCalc>::empty());
        reveal(Seq::filter);
        assert(equivalents(t, x).len() == 0);
        assert(equivalents(a, x) == equivalents(b, x));
    } else {
        let x = a[0];
        let y = b[0];
        let ta = a.drop_first();
        let tb = b.drop_first();
        assert(a =~= seq![x] + ta);
        assert(b =~= seq![y] + tb);
        lemma_report_reflexive(x);
        lemma_report_reflexive(y);
        // x occurs in b among the entries of its place, so y may stand before it.
        lemma_equivalents_prepend(ta, x, x);
        assert(equivalents(a, x)[0] == x);
        assert(equivalents(b, x).contains(x)) by {
            assert(equivalents(b, x)[0] == x);
        }
        let pb = |z: UptimeCalc| report_equiv(z, x);
        b.lemma_filter_contains_rev(pb, x);
        let jb = choose|j: int| 0 <= j < b.len() && b[j] == x;
        if jb > 0 {
            assert(report_le(b[0], b[jb]));
        }
        lemma_equivalents_prepend(tb, y, y);
        assert(equivalents(b, y)[0] == y);
        assert(equivalents(a, y)[0] == y);
        let pa = |z: UptimeCalc| report_equiv(z, y);
        a.lemma_filter_contains_rev(pa, y);
        assert(equivalents(a, y).contains(y));
        let ja = choose|j: int| 0 <= j < a.len() && a[j] == y;
        if ja > 0 {
            assert(report_le(a[0], a[ja]));
        }
        assert(report_equiv(y, x));
        lemma_equivalents_prepend(tb, y, x);
        assert(equivalents(b, x)[0] == y);
        assert(x == y);
        assert forall|i: int, j: int| 0 <= i < j < ta.len() implies report_le(#[trigger] ta[i], #[trigger] ta[j]) by {
            assert(ta[i] == a[i + 1] && ta[j] == a[j + 1]);
        }
        assert forall|i: int, j: int| 0 <= i < j < tb.len() implies report_le(#[trigger] tb[i], #[trigger] tb[j]) by {
            assert(tb[i] == b[i + 1] && tb[j] == b[j + 1]);
        }
        assert forall|e: UptimeCalc| #[trigger] equivalents(ta, e) == equivalents(tb, e) by {
            lemma_equivalents_prepend(ta, x, e);
            lemma_equivalents_prepend(tb, x, e);
            assert(equivalents(a, e) == equivalents(b, e));
            if report_equiv(x, e) {
                assert(equivalents(ta, e) =~= equivalents(a, e).drop_first());
                assert(equivalents(tb, e) =~= equivalents(b, e).drop_first());
            } else {
                assert(equivalents(ta, e) =~= equivalents(a, e));
                assert(equivalents(tb, e) =~= equivalents(b, e));
            }
        }
        lemma_report_order_unique(ta, tb);
    }
}

/// Whether `a` may stand before `b` in the report.
pub fn report_le_exec(a: &UptimeCalc, b: &UptimeCalc) -> (r: bool)
    ensures
        r == report_le(*a, *b),
{
    let a_full = a.percentage.full();
    let b_full = b.percentage.full();
    if a_full {
        if b_full {
            bytes_le(a.name.as_str().as_bytes(), b.name.as_str().as_bytes())
        } else {
            true
        }
    } else {
        !b_full && b.percentage.order_key() <= a.percentage.order_key()
    }
}

/// The position after every entry of `out` that may stand before `x`.
fn insertion_point(out: &Vec<UptimeCalc>, x: &UptimeCalc) -> (p: usize)
    requires
        report_sorted(out@),
    ensures
        p <= out@.len(),
        forall|i: int| 0 <= i < p ==> report_le(#[trigger] out@[i], *x),
        p < out@.len() ==> !report_le(out@[p as int], *x),
{
    let mut p: usize = 0;
    while p < out.len()
        invariant
            p <= out@.len(),
            forall|i: int| 0 <= i < p ==> report_le(#[trigger] out@[i], *x),
        decreases out.len() - p,
    {
        if !report_le_exec(&out[p], x) {
            return p;
        }
        p = p + 1;
    }
    p
}

proof fn lemma_insert_sorted(s: Seq<UptimeCalc>, p: int, x: UptimeCalc)
    requires
        report_sorted(s),
        0 <= p <= s.len(),
        forall|i: int| 0 <= i < p ==> report_le(#[trigger] s[i], x),
        p < s.len() ==> !report_le(s[p], x),
    ensures
        report_sorted(s.insert(p, x)),
{
    let t = s.insert(p, x);
    s.insert_ensures(p, x);
    if p < s.len() {
        lemma_report_total(s[p], x);
    }
    assert forall|i: int, j: int| 0 <= i < j < t.len() implies report_le(#[trigger] t[i], #[trigger] t[j]) by {
        if j < p {
            assert(t[i] == s[i] && t[j] == s[j]);
        } else if j == p {
            assert(t[i] == s[i]);
        } else if i < p {
            assert(t[i] == s[i] && t[j] == s[j - 1]);
        } else if i == p {
            assert(t[j] == s[j - 1]);
            if j - 1 > p {
                lemma_report_transitive(x, s[p], s[j - 1]);
            }
        } else {
            assert(t[i] == s[i - 1] && t[j] == s[j - 1]);
        }
    }
}

proof fn lemma_insert_equivalents(s: Seq<UptimeCalc>, p: int, x: UptimeCalc, e: UptimeCalc)
    requires
        report_sorted(s),
        0 <= p <= s.len(),
        forall|i: int| 0 <= i < p ==> report_le(#[trigger] s[i], x),
        p < s.len() ==> !report_le(s[p], x),
    ensures
        equivalents(s.insert(p, x), e) == if report_equiv(x, e) {
            equivalents(s, e).push(x)
        } else {
            equivalents(s, e)
        },
{
    let pred = |y: UptimeCalc| report_equiv(y, e);
    let front = s.subrange(0, p);
    let back = s.subrange(p, s.len() as int);
    assert(s =~= front + back);
    assert(s.insert(p, x) =~= front.push(x) + back);
    Seq::filter_distributes_over_add(front, back, pred);
    Seq::filter_distributes_over_add(front.push(x), back, pred);
    front.lemma_filter_push(x, pred);
    if report_equiv(x, e) {
        assert forall|j: int| 0 <= j < back.len() implies !pred(#[trigger] back[j]) by {
            let y = back[j];
            assert(y == s[p + j]);
            if j > 0 {
                assert(report_le(s[p], s[p + j]));
            }
            if report_le(y, x) {
                if j > 0 {
                    lemma_report_transitive(s[p], y, x);
                }
            }
            if pred(y) {
                lemma_report_transitive(y, e, x);
            }
        }
        assert(back.all(|y: UptimeCalc| !pred(y)));
        back.lemma_all_neg_filter_empty(pred);
        assert(back.filter(pred) =~= Seq::<UptimeCalc>::empty());
    }
}

/// Orders uptime figures for the report: every monitor at exactly 100% first,
/// by name, then the others from the highest percentage to the lowest.
/// Entries that take the same place keep the order they came in.
pub fn sort_for_report(calcs: Vec<UptimeCalc>) -> (r: Vec<UptimeCalc>)
    requires
        forall|i: int| 0 <= i < calcs@.len() ==> !(#[trigger] calcs@[i]).percentage.is_nan(),
    ensures
        r@.to_multiset() == calcs@.to_multiset(),
        report_sorted(r@),
        forall|e: UptimeCalc| #[trigger] equivalents(r@, e) == equivalents(calcs@, e),
{
    let ghost orig = calcs@;
    let mut rest = calcs;
    let mut out: Vec<UptimeCalc> = Vec::new();
    proof {
        assert(orig.take(0) =~= Seq::<UptimeCalc>::empty());
        assert(orig.skip(0) =~= orig);
        assert forall|e: UptimeCalc| #[trigger] equivalents(out@, e) == equivalents(orig.take(0), e) by {
            assert(out@ =~= orig.take(0));
        }
    }
    while rest.len() > 0
        invariant
            out@.len() + rest@.len() == orig.len(),
            rest@ == orig.skip(out@.len() as int),
            out@.to_multiset() == orig.take(out@.len() as int).to_multiset(),
            report_sorted(out@),
            forall|e: UptimeCalc| #[trigger] equivalents(out@, e) == equivalents(orig.take(out@.len() as int), e),
        decreases rest.len(),
    {
        let ghost k = out@.len() as int;
        let ghost before = out@;
        let x = rest.remove(0);
        assert(x == orig[k]);
        assert(rest@ =~= orig.skip(k + 1));
        let p = insertion_point(&out, &x);
        proof {
            lemma_insert_sorted(before, p as int, x);
            assert(orig.take(k + 1) =~= orig.take(k).push(x));
            assert forall|e: UptimeCalc| #[trigger] equivalents(before.insert(p as int, x), e) == equivalents(orig.take(k + 1), e) by {
                lemma_insert_equivalents(before, p as int, x, e);
                orig.take(k).lemma_filter_push(x, |y: UptimeCalc| report_equiv(y, e));
            }
            let ins = before.insert(p as int, x);
            before.insert_ensures(p as int, x);
            assert(ins.remove(p as int) =~= before);
            broadcast use vstd::seq_lib::group_to_multiset_ensures;
            assert(ins.to_multiset() =~= before.to_multiset().insert(x)) by {
                assert(ins.remove(p as int).to_multiset() =~= ins.to_multiset().remove(ins[p as int]));
                assert(ins.contains(x));
                assert(ins.to_multiset().count(x) > 0);
            }
            assert(orig.take(k).push(x).to_multiset() =~= orig.take(k).to_multiset().insert(x));
        }
        out.insert(p, x);
    }
    proof {
        assert(orig.take(orig.len() as int) =~= orig);
    }
    out
}


/// What `str::to_lowercase` returns for a string: its Unicode lowercase
/// mapping, which depends on the string alone.
pub uninterp spec fn lowercase_of(s: Seq<char>) -> Seq<char>;

/// Wraps `str::to_lowercase`.
/// Trusted: the result is the function's lowercase mapping of `s` (named, not
/// stated: it follows Unicode's tables).
#[verifier::external_body]
fn to_lowercase(s: &str) -> (r: String)
    ensures
        r@ == lowercase_of(s@),
{
    s.to_lowercase()
}

/// The lowercased name contains one of the lowercased search terms.
pub open spec fn matches_search(name: Seq<char>, terms: Seq<Seq<char>>) -> bool {
    exists|t: int|
        0 <= t < terms.len() && #[trigger] byte_substring(
            encode_utf8(lowercase_of(name)),
            encode_utf8(lowercase_of(terms[t])),
        )
}

/// Keeps the figures of the monitors whose name, lowercased, contains any of
/// the search terms, lowercased; with no search terms every entry is kept.
/// The entries kept stay in their order.
pub fn filter_by_search(calcs: Vec<UptimeCalc>, search: &Vec<String>) -> (r: Vec<UptimeCalc>)
    ensures
        search@.len() == 0 ==> r@ == calcs@,
        search@.len() > 0 ==> r@ == calcs@.filter(
            |u: UptimeCalc| matches_search(u.name@, string_views(search@)),
        ),
{
    if search.len() == 0 {
        return calcs;
    }
    let ghost terms = string_views(search@);
    let mut lowered: Vec<String> = Vec::new();
    let mut t: usize = 0;
    while t < search.len()
        invariant
            t <= search@.len(),
            terms == string_views(search@),
            lowered@.len() == t,
            forall|k: int| 0 <= k < t ==> (#[trigger] lowered@[k])@ == lowercase_of(terms[k]),
        decreases search.len() - t,
    {
        lowered.push(to_lowercase(search[t].as_str()));
        t = t + 1;
    }
    let ghost pred = |u: UptimeCalc| matches_search(u.name@, terms);
    let ghost orig = calcs@;
    let mut rest = calcs;
    let mut out: Vec<UptimeCalc> = Vec::new();
    let ghost mut k: int = 0;
    proof {
        assert(orig.take(0) =~= Seq::<UptimeCalc>::empty());
        assert(orig.skip(0) =~= orig);
        reveal(Seq::filter);
        assert(orig.take(0).filter(pred) =~= Seq::<UptimeCalc>::empty());
    }
    while rest.len() > 0
        invariant
            lowered@.len() == terms.len(),
            forall|k: int| 0 <= k < terms.len() ==> (#[trigger] lowered@[k])@ == lowercase_of(terms[k]),
            pred == (|u: UptimeCalc| matches_search(u.name@, terms)),
            0 <= k <= orig.len(),
            rest@ == orig.skip(k),
            out@ == orig.take(k).filter(pred),
        decreases rest.len(),
    {
        let u = rest.remove(0);
        assert(u == orig[k]);
        assert(rest@ =~= orig.skip(k + 1));
        let name = to_lowercase(u.name.as_str());
        let mut hit = false;
        let mut j: usize = 0;
        while j < lowered.len()
            invariant
                j <= lowered@.len(),
                lowered@.len() == terms.len(),
                forall|k: int| 0 <= k < terms.len() ==> (#[trigger] lowered@[k])@ == lowercase_of(terms[k]),
                name@ == lowercase_of(u.name@),
                hit == exists|m: int|
                    0 <= m < j && #[trigger] byte_substring(
                        encode_utf8(lowercase_of(u.name@)),
                        encode_utf8(lowercase_of(terms[m])),
                    ),
            decreases lowered.len() - j,
        {
            let found = contains_bytes(name.as_str().as_bytes(), lowered[j].as_str().as_bytes());
            hit = hit || found;
            j = j + 1;
        }
        proof {
            assert(orig.take(k + 1) =~= orig.take(k).push(u));
            orig.take(k).lemma_filter_push(u, pred);
        }
        if hit {
            out.push(u);
        }
        proof {
            k = k + 1;
        }
    }
    proof {
        assert(orig.take(orig.len() as int) =~= orig);
    }
    out
}

/// The search is a substring test at every position: an entry whose
/// lowercased name holds the bytes of a lowercased search term starting at
/// any byte offset `at`, not only at the start, is kept.
pub proof fn lemma_search_keeps_term_anywhere(calcs: Seq<UptimeCalc>, terms: Seq<Seq<char>>, k: int, t: int, at: int)
    requires
        0 <= k < calcs.len(),
        0 <= t < terms.len(),
        0 <= at,
        at + encode_utf8(lowercase_of(terms[t])).len() <= encode_utf8(lowercase_of(calcs[k].name@)).len(),
        encode_utf8(lowercase_of(calcs[k].name@)).subrange(at, at + encode_utf8(lowercase_of(terms[t])).len())
            == encode_utf8(lowercase_of(terms[t])),
    ensures
        calcs.filter(|u: UptimeCalc| matches_search(u.name@, terms)).contains(calcs[k]),
{
    let hay = encode_utf8(lowercase_of(calcs[k].name@));
    let needle = encode_utf8(lowercase_of(terms[t]));
    assert(hay.subrange(at, at + needle.len()) == needle);
    assert(byte_substring(hay, needle));
    assert(matches_search(calcs[k].name@, terms));
    calcs.lemma_filter_contains(|u: UptimeCalc| matches_search(u.name@, terms), k);
}

/// Nothing else is kept: every entry kept comes from the list, and its
/// lowercased name holds the bytes of some lowercased search term at some
/// byte offset.
pub proof fn lemma_search_kept_holds_term(calcs: Seq<UptimeCalc>, terms: Seq<Seq<char>>, u: UptimeCalc)
    requires
        calcs.filter(|v: UptimeCalc| matches_search(v.name@, terms)).contains(u),
    ensures
        calcs.contains(u),
        exists|t: int, at: int|
            0 <= t < terms.len() && 0 <= at && at + encode_utf8(lowercase_of(terms[t])).len() <= encode_utf8(
                lowercase_of(u.name@),
            ).len() && #[trigger] encode_utf8(lowercase_of(u.name@)).subrange(
                at,
                at + encode_utf8(lowercase_of(terms[t])).len(),
            ) == encode_utf8(lowercase_of(terms[t])),
{
    let pred = |v: UptimeCalc| matches_search(v.name@, terms);
    calcs.lemma_filter_contains_rev(pred, u);
    let kept = calcs.filter(pred);
    let j = choose|j: int| 0 <= j < kept.len() && kept[j] == u;
    calcs.lemma_filter_pred(pred, j);
    let t = choose|t: int|
        0 <= t < terms.len() && #[trigger] byte_substring(
            encode_utf8(lowercase_of(u.name@)),
            encode_utf8(lowercase_of(terms[t])),
        );
    let hay = encode_utf8(lowercase_of(u.name@));
    let needle = encode_utf8(lowercase_of(terms[t]));
    let at = choose|at: int| 0 <= at <= hay.len() - needle.len() && #[trigger] hay.subrange(at, at + needle.len()) == needle;
    assert(hay.subrange(at, at + needle.len()) == needle);
}

/// Width of the name column: the longest name in bytes, and at least the
/// width of the heading `Monitor Name`.
pub open spec fn name_column(s: Seq<UptimeCalc>) -> int
    decreases s.len(),
{
    if s.len() == 0 {
        12
    } else {
        let rest = name_column(s.drop_last());
        let len = name_bytes(s.last()).len() as int;
        if len > rest {
            len
        } else {
            rest
        }
    }
}

/// The width of the name column of the report table.
pub fn name_column_width(calcs: &Vec<UptimeCalc>) -> (r: usize)
    ensures
        r == name_column(calcs@),
{
    let mut width: usize = 12;
    let mut i: usize = 0;
    while i < calcs.len()
        invariant
            i <= calcs@.len(),
            width == name_column(calcs@.take(i as int)),
        decreases calcs.len() - i,
    {
        assert(calcs@.take(i + 1).drop_last() =~= calcs@.take(i as int));
        let len = calcs[i].name.as_str().as_bytes().len();
        if len > width {
            width = len;
        }
        i = i + 1;
    }
    assert(calcs@.take(calcs@.len() as int) =~= calcs@);
    width
}

/// The position of the first entry below 100%, before which the report
/// starts its section of monitors with downtime.
pub fn first_below_hundred(calcs: &Vec<UptimeCalc>) -> (r: Option<usize>)
    ensures
        r matches Some(i) ==> i < calcs@.len() && calcs@[i as int].percentage.below_hundred()
            && forall|j: int| 0 <= j < i ==> !(#[trigger] calcs@[j]).percentage.below_hundred(),
        r is None ==> forall|j: int| 0 <= j < calcs@.len() ==> !(#[trigger] calcs@[j]).percentage.below_hundred(),
{
    let mut i: usize = 0;
    while i < calcs.len()
        invariant
            i <= calcs@.len(),
            forall|j: int| 0 <= j < i ==> !(#[trigger] calcs@[j]).percentage.below_hundred(),
        decreases calcs.len() - i,
    {
        if calcs[i].percentage.less_than_hundred() {
            return Some(i);
        }
        i = i + 1;
    }
    None
}

} // verus!
