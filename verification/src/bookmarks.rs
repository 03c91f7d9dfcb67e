//! The bookmarked locations of the interactive display: adding, removing,
//! and listing them in display order ("Automatic" first, the rest sorted by
//! city and then country).
use vstd::prelude::*;

use crate::location;
use crate::text;
use crate::text::Order;

verus! {

broadcast use vstd::seq_lib::group_to_multiset_ensures;

// ---------------------------------------------------------------------------
// The order of locations
// ---------------------------------------------------------------------------

/// How two bookmarks compare: by trimmed city and then trimmed country when
/// both have at least two comma-separated parts, else as whole strings.
pub open spec fn location_order(a: Seq<char>, b: Seq<char>) -> Order {
    let ap = text::split_on(a, ',');
    let bp = text::split_on(b, ',');
    if ap.len() >= 2 && bp.len() >= 2 {
        match text::lex_order(text::trim(ap[0]), text::trim(bp[0])) {
            Order::Equal => text::lex_order(text::trim(ap[1]), text::trim(bp[1])),
            o => o,
        }
    } else {
        text::lex_order(a, b)
    }
}

/// The reverse of an order.
pub open spec fn flip(o: Order) -> Order {
    match o {
        Order::Less => Order::Greater,
        Order::Equal => Order::Equal,
        Order::Greater => Order::Less,
    }
}

/// Comparing the other way round gives the reverse order, and only equal
/// sequences compare equal.
pub proof fn lemma_lex_flip(a: Seq<char>, b: Seq<char>)
    ensures
        text::lex_order(b, a) == flip(text::lex_order(a, b)),
        text::lex_order(a, b) == Order::Equal <==> a == b,
    decreases a.len(),
{
    if a.len() > 0 && b.len() > 0 && a[0] == b[0] {
        lemma_lex_flip(a.drop_first(), b.drop_first());
        if a.drop_first() == b.drop_first() {
            assert(a =~= seq![a[0]] + a.drop_first());
            assert(b =~= seq![b[0]] + b.drop_first());
        }
    }
    if a.len() == 0 && b.len() == 0 {
        assert(a =~= b);
    }
}

/// The lexicographic order is transitive, strictly where either step is
/// strict.
pub proof fn lemma_lex_trans(a: Seq<char>, b: Seq<char>, c: Seq<char>)
    requires
        text::lex_order(a, b) != Order::Greater,
        text::lex_order(b, c) != Order::Greater,
    ensures
        text::lex_order(a, c) != Order::Greater,
        (text::lex_order(a, b) == Order::Less || text::lex_order(b, c) == Order::Less)
            ==> text::lex_order(a, c) == Order::Less,
    decreases a.len(),
{
    lemma_lex_flip(a, b);
    lemma_lex_flip(b, c);
    lemma_lex_flip(a, c);
    if a.len() > 0 && b.len() > 0 && c.len() > 0 && a[0] == b[0] && b[0] == c[0] {
        lemma_lex_trans(a.drop_first(), b.drop_first(), c.drop_first());
    }
}

/// Comparing bookmarks the other way round gives the reverse order.
pub proof fn lemma_location_flip(a: Seq<char>, b: Seq<char>)
    ensures
        location_order(b, a) == flip(location_order(a, b)),
{
    let ap = text::split_on(a, ',');
    let bp = text::split_on(b, ',');
    lemma_lex_flip(a, b);
    if ap.len() >= 2 && bp.len() >= 2 {
        lemma_lex_flip(text::trim(ap[0]), text::trim(bp[0]));
        lemma_lex_flip(text::trim(ap[1]), text::trim(bp[1]));
    }
}

/// Whether a bookmark has the "City, Country" shape (two or more parts).
pub open spec fn city_shaped(s: Seq<char>) -> bool {
    text::split_on(s, ',').len() >= 2
}

/// Among bookmarks that all have the "City, Country" shape, or that all
/// lack it, the order is transitive.
pub proof fn lemma_location_trans(a: Seq<char>, b: Seq<char>, c: Seq<char>)
    requires
        (city_shaped(a) && city_shaped(b) && city_shaped(c)) || (!city_shaped(a) && !city_shaped(
            b,
        ) && !city_shaped(c)),
        location_order(a, b) != Order::Greater,
        location_order(b, c) != Order::Greater,
    ensures
        location_order(a, c) != Order::Greater,
{
    if city_shaped(a) {
        let ac = text::trim(text::split_on(a, ',')[0]);
        let bc = text::trim(text::split_on(b, ',')[0]);
        let cc = text::trim(text::split_on(c, ',')[0]);
        let ak = text::trim(text::split_on(a, ',')[1]);
        let bk = text::trim(text::split_on(b, ',')[1]);
        let ck = text::trim(text::split_on(c, ',')[1]);
        lemma_lex_flip(ac, bc);
        lemma_lex_flip(bc, cc);
        lemma_lex_flip(ac, cc);
        lemma_lex_trans(ac, bc, cc);
        if text::lex_order(ac, bc) == Order::Equal && text::lex_order(bc, cc) == Order::Equal {
            lemma_lex_trans(ak, bk, ck);
        }
    } else {
        lemma_lex_trans(a, b, c);
    }
}

// ---------------------------------------------------------------------------
// Sorting
// ---------------------------------------------------------------------------

/// The views of a vector of strings.
pub open spec fn string_views(v: Seq<String>) -> Seq<Seq<char>> {
    v.map_values(|s: String| s@)
}

/// Whether `out` lists the elements of `inp` rearranged: `out[k]` is
/// `inp[perm[k]]` and no input position is used twice.
pub open spec fn arrangement(perm: Seq<int>, out: Seq<Seq<char>>, inp: Seq<Seq<char>>) -> bool {
    &&& perm.len() == out.len()
    &&& out.len() == inp.len()
    &&& forall|k: int| 0 <= k < perm.len() ==> 0 <= #[trigger] perm[k] < inp.len()
    &&& forall|k: int| 0 <= k < perm.len() ==> #[trigger] out[k] == inp[perm[k]]
    &&& forall|a: int, b: int| 0 <= a < b < perm.len() ==> perm[a] != perm[b]
}

/// Whether elements that compare equal stay in their input order.
pub open spec fn keeps_ties(perm: Seq<int>, out: Seq<Seq<char>>) -> bool {
    forall|a: int, b: int|
        0 <= a < b < out.len() && location_order(#[trigger] out[a], #[trigger] out[b])
            == Order::Equal ==> perm[a] < perm[b]
}

/// Whether no element is followed by a smaller one.
pub open spec fn ascending(out: Seq<Seq<char>>) -> bool {
    forall|a: int, b: int|
        0 <= a < b < out.len() ==> location_order(#[trigger] out[a], #[trigger] out[b])
            != Order::Greater
}

/// Whether the order is transitive among the elements of `s`.
pub open spec fn transitive_on(s: Seq<Seq<char>>) -> bool {
    forall|x: Seq<char>, y: Seq<char>, z: Seq<char>|
        #![trigger s.contains(x), s.contains(y), s.contains(z)]
        s.contains(x) && s.contains(y) && s.contains(z) && location_order(x, y) != Order::Greater
            && location_order(y, z) != Order::Greater ==> location_order(x, z) != Order::Greater
}

/// When every bookmark has the "City, Country" shape, or none has, the
/// order is transitive among them.
pub proof fn lemma_uniform_shapes_transitive(s: Seq<Seq<char>>)
    requires
        (forall|i: int| 0 <= i < s.len() ==> city_shaped(#[trigger] s[i])) || (forall|i: int|
            0 <= i < s.len() ==> !city_shaped(#[trigger] s[i])),
    ensures
        transitive_on(s),
{
    assert forall|x: Seq<char>, y: Seq<char>, z: Seq<char>|
        s.contains(x) && s.contains(y) && s.contains(z) && location_order(x, y) != Order::Greater
            && location_order(y, z) != Order::Greater implies location_order(x, z)
        != Order::Greater by {
        let ix = choose|i: int| 0 <= i < s.len() && s[i] == x;
        let iy = choose|i: int| 0 <= i < s.len() && s[i] == y;
        let iz = choose|i: int| 0 <= i < s.len() && s[i] == z;
        assert(city_shaped(s[ix]) == city_shaped(s[iy]));
        assert(city_shaped(s[iy]) == city_shaped(s[iz]));
        lemma_location_trans(x, y, z);
    }
}

proof fn lemma_insert_keeps_arrangement(
    old_out: Seq<Seq<char>>,
    old_perm: Seq<int>,
    inp: Seq<Seq<char>>,
    i: int,
    p: int,
)
    requires
        0 <= i < inp.len(),
        0 <= p <= old_out.len(),
        old_perm.len() == old_out.len(),
        old_out.len() == i,
        forall|k: int| 0 <= k < old_perm.len() ==> 0 <= #[trigger] old_perm[k] < i,
        forall|k: int| 0 <= k < old_perm.len() ==> #[trigger] old_out[k] == inp[old_perm[k]],
        forall|a: int, b: int| 0 <= a < b < old_perm.len() ==> old_perm[a] != old_perm[b],
    ensures
        ({
            let nv = old_out.insert(p, inp[i]);
            let np = old_perm.insert(p, i);
            &&& forall|k: int| 0 <= k < np.len() ==> 0 <= #[trigger] np[k] < i + 1
            &&& forall|k: int| 0 <= k < np.len() ==> #[trigger] nv[k] == inp[np[k]]
            &&& forall|a: int, b: int| 0 <= a < b < np.len() ==> np[a] != np[b]
        }),
{
    let nv = old_out.insert(p, inp[i]);
    let np = old_perm.insert(p, i);
    assert forall|k: int| 0 <= k < np.len() implies #[trigger] nv[k] == inp[np[k]] by {
        if k < p {
            assert(nv[k] == old_out[k]);
        } else if k > p {
            assert(nv[k] == old_out[k - 1]);
        }
    }
    assert forall|k: int| 0 <= k < np.len() implies 0 <= #[trigger] np[k] < i + 1 by {
        if k < p {
            assert(np[k] == old_perm[k]);
        } else if k > p {
            assert(np[k] == old_perm[k - 1]);
        }
    }
    assert forall|a: int, b: int| 0 <= a < b < np.len() implies np[a] != np[b] by {
        if a != p && b != p {
            let oa = if a < p {
                a
            } else {
                a - 1
            };
            let ob = if b < p {
                b
            } else {
                b - 1
            };
            assert(np[a] == old_perm[oa]);
            assert(np[b] == old_perm[ob]);
        } else if a == p {
            assert(np[b] == old_perm[b - 1]);
        } else {
            assert(np[a] == old_perm[a]);
        }
    }
}

proof fn lemma_insert_keeps_ties(
    old_out: Seq<Seq<char>>,
    old_perm: Seq<int>,
    inp: Seq<Seq<char>>,
    i: int,
    p: int,
)
    requires
        0 <= i < inp.len(),
        0 <= p <= old_out.len(),
        old_perm.len() == old_out.len(),
        old_out.len() == i,
        forall|k: int| 0 <= k < old_perm.len() ==> 0 <= #[trigger] old_perm[k] < i,
        keeps_ties(old_perm, old_out),
        forall|q: int|
            p <= q < old_out.len() ==> location_order(#[trigger] old_out[q], inp[i])
                == Order::Greater,
    ensures
        keeps_ties(old_perm.insert(p, i), old_out.insert(p, inp[i])),
{
    let nv = old_out.insert(p, inp[i]);
    let np = old_perm.insert(p, i);
    assert forall|a: int, b: int|
        0 <= a < b < nv.len() && location_order(#[trigger] nv[a], #[trigger] nv[b])
            == Order::Equal implies np[a] < np[b] by {
        if a != p && b != p {
            let oa = if a < p {
                a
            } else {
                a - 1
            };
            let ob = if b < p {
                b
            } else {
                b - 1
            };
            assert(nv[a] == old_out[oa]);
            assert(nv[b] == old_out[ob]);
            assert(np[a] == old_perm[oa]);
            assert(np[b] == old_perm[ob]);
        } else if a == p {
            assert(nv[b] == old_out[b - 1]);
            lemma_location_flip(old_out[b - 1], inp[i]);
        } else {
            assert(np[a] == old_perm[a]);
        }
    }
}

proof fn lemma_insert_keeps_ascending(
    old_out: Seq<Seq<char>>,
    old_perm: Seq<int>,
    inp: Seq<Seq<char>>,
    i: int,
    p: int,
)
    requires
        0 <= i < inp.len(),
        0 <= p <= old_out.len(),
        old_perm.len() == old_out.len(),
        old_out.len() == i,
        forall|k: int| 0 <= k < old_perm.len() ==> 0 <= #[trigger] old_perm[k] < i,
        forall|k: int| 0 <= k < old_perm.len() ==> #[trigger] old_out[k] == inp[old_perm[k]],
        transitive_on(inp),
        ascending(old_out),
        forall|q: int|
            p <= q < old_out.len() ==> location_order(#[trigger] old_out[q], inp[i])
                == Order::Greater,
        p > 0 ==> location_order(old_out[p - 1], inp[i]) != Order::Greater,
    ensures
        ascending(old_out.insert(p, inp[i])),
{
    let nv = old_out.insert(p, inp[i]);
    let x = inp[i];
    assert forall|a: int, b: int| 0 <= a < b < nv.len() implies location_order(
        #[trigger] nv[a],
        #[trigger] nv[b],
    ) != Order::Greater by {
        if a != p && b != p {
            let oa = if a < p {
                a
            } else {
                a - 1
            };
            let ob = if b < p {
                b
            } else {
                b - 1
            };
            assert(nv[a] == old_out[oa]);
            assert(nv[b] == old_out[ob]);
        } else if a == p {
            assert(nv[b] == old_out[b - 1]);
            lemma_location_flip(old_out[b - 1], x);
        } else {
            assert(nv[a] == old_out[a]);
            if a < p - 1 {
                assert(location_order(old_out[a], old_out[p - 1]) != Order::Greater);
                assert(old_out[a] == inp[old_perm[a]]);
                assert(old_out[p - 1] == inp[old_perm[p - 1]]);
                assert(inp.contains(old_out[a]));
                assert(inp.contains(old_out[p - 1]));
                assert(inp.contains(x));
            }
        }
    }
}

/// Lexicographic comparison of character sequences.
pub fn lex_order_exec(a: &[char], b: &[char]) -> (res: Order)
    ensures
        res == text::lex_order(a@, b@),
{
    let n = a.len();
    let m = b.len();
    let mut i: usize = 0;
    assert(a@.skip(0) =~= a@);
    assert(b@.skip(0) =~= b@);
    while i < n && i < m && a[i] == b[i]
        invariant
            n == a@.len(),
            m == b@.len(),
            i <= n,
            i <= m,
            text::lex_order(a@, b@) == text::lex_order(a@.skip(i as int), b@.skip(i as int)),
        decreases n - i,
    {
        assert(a@.skip(i as int).drop_first() =~= a@.skip(i + 1));
        assert(b@.skip(i as int).drop_first() =~= b@.skip(i + 1));
        i = i + 1;
    }
    if i == n {
        if i == m {
            Order::Equal
        } else {
            Order::Less
        }
    } else if i == m {
        Order::Greater
    } else if a[i] < b[i] {
        Order::Less
    } else {
        Order::Greater
    }
}

/// How two bookmarks compare.
pub fn location_order_exec(a: &[char], b: &[char]) -> (res: Order)
    ensures
        res == location_order(a@, b@),
{
    let ap = text::split_chars(a, ',');
    let bp = text::split_chars(b, ',');
    if ap.len() >= 2 && bp.len() >= 2 {
        assert(ap@[0]@ == text::split_on(a@, ',')[0]);
        assert(ap@[1]@ == text::split_on(a@, ',')[1]);
        assert(bp@[0]@ == text::split_on(b@, ',')[0]);
        assert(bp@[1]@ == text::split_on(b@, ',')[1]);
        let ac = text::trim_chars(ap[0].as_slice());
        let bc = text::trim_chars(bp[0].as_slice());
        match lex_order_exec(ac.as_slice(), bc.as_slice()) {
            Order::Equal => {
                let ak = text::trim_chars(ap[1].as_slice());
                let bk = text::trim_chars(bp[1].as_slice());
                lex_order_exec(ak.as_slice(), bk.as_slice())
            },
            o => o,
        }
    } else {
        lex_order_exec(a, b)
    }
}

fn clone_chars(v: &Vec<char>) -> (res: Vec<char>)
    ensures
        res@ == v@,
{
    let mut out: Vec<char> = Vec::new();
    text::push_all(&mut out, v.as_slice());
    out
}

/// Where `x` goes when inserted into `sorted[..p]`: after the last entry
/// that is not greater than it, found by scanning back from `p`.
pub open spec fn insertion_point(sorted: Seq<Seq<char>>, x: Seq<char>, p: int) -> int
    decreases p,
{
    if p > 0 && location_order(sorted[p - 1], x) == Order::Greater {
        insertion_point(sorted, x, p - 1)
    } else {
        p
    }
}

/// `sorted` with `x` inserted at its insertion point.
pub open spec fn insert_sorted(sorted: Seq<Seq<char>>, x: Seq<char>) -> Seq<Seq<char>> {
    sorted.insert(insertion_point(sorted, x, sorted.len() as int), x)
}

/// The bookmarks inserted one after another, in list order, each at its
/// insertion point: the order they are listed in.
pub open spec fn insertion_sorted(s: Seq<Seq<char>>) -> Seq<Seq<char>>
    decreases s.len(),
{
    if s.len() == 0 {
        Seq::<Seq<char>>::empty()
    } else {
        insert_sorted(insertion_sorted(s.drop_last()), s.last())
    }
}

/// The listing of the bookmarks `s`: the "Automatic" entries, then the
/// others as `insertion_sorted` orders them.
pub open spec fn display_listing(s: Seq<Seq<char>>) -> Seq<Seq<char>> {
    automatic_entries(s) + insertion_sorted(other_entries(s))
}

/// Sorts bookmarks by `location_order`, keeping ties in their input order.
/// The result is always a rearrangement of the input; it is in ascending
/// order wherever the order is transitive among the inputs.
pub fn sort_locations(items: &Vec<Vec<char>>) -> (res: Vec<Vec<char>>)
    ensures
        exists|perm: Seq<int>|
            arrangement(perm, text::views(res@), text::views(items@)) && keeps_ties(
                perm,
                text::views(res@),
            ),
        text::views(res@).to_multiset() == text::views(items@).to_multiset(),
        transitive_on(text::views(items@)) ==> ascending(text::views(res@)),
        text::views(res@) == insertion_sorted(text::views(items@)),
{
    let n = items.len();
    let ghost inp = text::views(items@);
    let mut out: Vec<Vec<char>> = Vec::new();
    let ghost mut perm: Seq<int> = Seq::empty();
    let mut i: usize = 0;
    while i < n
        invariant
            n == items@.len(),
            inp == text::views(items@),
            i <= n,
            perm.len() == out@.len(),
            out@.len() == i,
            forall|k: int| 0 <= k < perm.len() ==> 0 <= #[trigger] perm[k] < i,
            forall|k: int| 0 <= k < perm.len() ==> #[trigger] text::views(out@)[k] == inp[perm[k]],
            forall|a: int, b: int| 0 <= a < b < perm.len() ==> perm[a] != perm[b],
            keeps_ties(perm, text::views(out@)),
            transitive_on(inp) ==> ascending(text::views(out@)),
            text::views(out@).to_multiset() == inp.take(i as int).to_multiset(),
            text::views(out@) == insertion_sorted(inp.take(i as int)),
        decreases n - i,
    {
        let x = clone_chars(&items[i]);
        assert(x@ == inp[i as int]);
        let ghost old_out = text::views(out@);
        let mut p: usize = out.len();
        while p > 0 && location_order_exec(out[p - 1].as_slice(), x.as_slice()) == Order::Greater
            invariant
                p <= out@.len(),
                old_out == text::views(out@),
                forall|q: int|
                    p <= q < old_out.len() ==> location_order(#[trigger] old_out[q], x@)
                        == Order::Greater,
                insertion_point(old_out, x@, p as int) == insertion_point(
                    old_out,
                    x@,
                    old_out.len() as int,
                ),
            decreases p,
        {
            p = p - 1;
        }
        let ghost old_perm = perm;
        out.insert(p, x);
        proof {
            perm = perm.insert(p as int, i as int);
            let nv = text::views(out@);
            assert(nv =~= old_out.insert(p as int, inp[i as int]));
            if p > 0 {
                assert(location_order(old_out[p - 1], x@) != Order::Greater);
            }
            lemma_insert_keeps_arrangement(old_out, old_perm, inp, i as int, p as int);
            lemma_insert_keeps_ties(old_out, old_perm, inp, i as int, p as int);
            if transitive_on(inp) {
                lemma_insert_keeps_ascending(old_out, old_perm, inp, i as int, p as int);
            }
            assert(inp.take(i + 1) =~= inp.take(i as int).push(inp[i as int]));
            assert(inp.take(i + 1).drop_last() =~= inp.take(i as int));
            assert(insertion_point(old_out, x@, p as int) == p);
            assert(nv == insert_sorted(old_out, inp[i as int]));
        }
        i = i + 1;
    }
    proof {
        assert(inp.take(n as int) =~= inp);
        assert(arrangement(perm, text::views(out@), inp));
        assert(text::views(out@) == insertion_sorted(inp));
    }
    out
}

// ---------------------------------------------------------------------------
// The list
// ---------------------------------------------------------------------------

/// The bookmark that stands for "locate me by IP address".
pub open spec fn automatic() -> Seq<char> {
    "Automatic"@
}

/// The "Automatic" entries of a list, in order.
pub open spec fn automatic_entries(s: Seq<Seq<char>>) -> Seq<Seq<char>>
    decreases s.len(),
{
    if s.len() == 0 {
        Seq::<Seq<char>>::empty()
    } else if s.last() == automatic() {
        automatic_entries(s.drop_last()).push(s.last())
    } else {
        automatic_entries(s.drop_last())
    }
}

/// The other entries of a list, in order.
pub open spec fn other_entries(s: Seq<Seq<char>>) -> Seq<Seq<char>>
    decreases s.len(),
{
    if s.len() == 0 {
        Seq::<Seq<char>>::empty()
    } else if s.last() == automatic() {
        other_entries(s.drop_last())
    } else {
        other_entries(s.drop_last()).push(s.last())
    }
}

/// Whether `index` is the position of the first entry equal to `target`
/// (`None`: there is none).
pub open spec fn first_position(s: Seq<Seq<char>>, target: Seq<char>, index: Option<usize>) -> bool {
    match index {
        Some(i) => i < s.len() && s[i as int] == target && forall|j: int|
            0 <= j < i ==> #[trigger] s[j] != target,
        None => forall|j: int| 0 <= j < s.len() ==> #[trigger] s[j] != target,
    }
}

/// Whether `(all, others)` is the display order of the bookmarks `s`:
/// `others` holds the entries other than "Automatic", rearranged with ties
/// kept in order and ascending wherever the order is transitive among them,
/// and `all` is the "Automatic" entries followed by `others`.
pub open spec fn display_order(s: Seq<Seq<char>>, all: Seq<Seq<char>>, others: Seq<Seq<char>>) -> bool {
    &&& exists|perm: Seq<int>|
        arrangement(perm, others, other_entries(s)) && keeps_ties(perm, others)
    &&& others.to_multiset() == other_entries(s).to_multiset()
    &&& transitive_on(other_entries(s)) ==> ascending(others)
    &&& all == automatic_entries(s) + others
}

fn chars_to_strings(v: &Vec<Vec<char>>) -> (res: Vec<String>)
    ensures
        string_views(res@) == text::views(v@),
{
    let n = v.len();
    let mut out: Vec<String> = Vec::new();
    let mut i: usize = 0;
    while i < n
        invariant
            n == v@.len(),
            i <= n,
            string_views(out@) == text::views(v@).take(i as int),
        decreases n - i,
    {
        let ghost before = out@;
        out.push(text::string_of(&v[i]));
        assert(string_views(out@) =~= string_views(before).push(v@[i as int]@));
        assert(text::views(v@).take(i + 1) =~= text::views(v@).take(i as int).push(v@[i as int]@));
        i = i + 1;
    }
    assert(text::views(v@).take(n as int) =~= text::views(v@));
    out
}

fn is_automatic(s: &str) -> (res: bool)
    ensures
        res == (s@ == automatic()),
{
    let cs = text::chars_of(s);
    text::chars_eq_str(cs.as_slice(), "Automatic")
}

fn position_of(v: &Vec<String>, target: &str) -> (res: Option<usize>)
    ensures
        first_position(string_views(v@), target@, res),
{
    let t = text::chars_of(target);
    let n = v.len();
    let mut i: usize = 0;
    while i < n
        invariant
            n == v@.len(),
            i <= n,
            t@ == target@,
            forall|j: int| 0 <= j < i ==> #[trigger] string_views(v@)[j] != target@,
        decreases n - i,
    {
        let c = text::chars_of(v[i].as_str());
        if text::chars_eq(c.as_slice(), t.as_slice()) {
            return Some(i);
        }
        i = i + 1;
    }
    None
}

/// The list after adding `x` unless present.
pub open spec fn with_location(s: Seq<Seq<char>>, x: Seq<char>) -> Seq<Seq<char>> {
    if s.contains(x) {
        s
    } else {
        s.push(x)
    }
}

/// The list without its first entry equal to `x` (unchanged when there is
/// none).
pub open spec fn without_first(s: Seq<Seq<char>>, x: Seq<char>) -> Seq<Seq<char>>
    decreases s.len(),
{
    if s.len() == 0 {
        s
    } else if s[0] == x {
        s.drop_first()
    } else {
        seq![s[0]] + without_first(s.drop_first(), x)
    }
}

proof fn lemma_without_first_at(s: Seq<Seq<char>>, x: Seq<char>, i: Option<usize>)
    requires
        first_position(s, x, i),
    ensures
        without_first(s, x) == match i {
            Some(k) => s.remove(k as int),
            None => s,
        },
    decreases s.len(),
{
    if s.len() > 0 {
        if s[0] == x {
            assert(i == Some(0usize)) by {
                if let Some(k) = i {
                    if k > 0 {
                        assert(s[0] != x);
                    }
                }
            }
            assert(s.drop_first() =~= s.remove(0));
        } else {
            let t = s.drop_first();
            let j: Option<usize> = match i {
                Some(k) => Some((k - 1) as usize),
                None => None,
            };
            match i {
                Some(k) => {
                    assert(k > 0);
                    assert forall|m: int| 0 <= m < k - 1 implies #[trigger] t[m] != x by {
                        assert(t[m] == s[m + 1]);
                    }
                    assert(t[k - 1] == s[k as int]);
                    lemma_without_first_at(t, x, j);
                    assert(seq![s[0]] + t.remove(k - 1) =~= s.remove(k as int));
                },
                None => {
                    assert forall|m: int| 0 <= m < t.len() implies #[trigger] t[m] != x by {
                        assert(t[m] == s[m + 1]);
                    }
                    lemma_without_first_at(t, x, j);
                    assert(seq![s[0]] + t =~= s);
                },
            }
        }
    } else {
        assert(i is None) by {
            if let Some(k) = i {
            }
        }
    }
}

/// Adding a location twice is adding it once.
pub proof fn law_add_is_idempotent(s: Seq<Seq<char>>, x: Seq<char>)
    ensures
        with_location(with_location(s, x), x) == with_location(s, x),
{
    if !s.contains(x) {
        assert(s.push(x)[s.len() as int] == x);
    }
}

/// Removing a location just added gives the list back.
pub proof fn law_remove_undoes_add(s: Seq<Seq<char>>, x: Seq<char>)
    requires
        !s.contains(x),
    ensures
        without_first(with_location(s, x), x) == s,
    decreases s.len(),
{
    if s.len() == 0 {
        assert(s.push(x).drop_first() =~= s);
    } else {
        let t = s.drop_first();
        assert(s[0] != x) by {
            assert(s.contains(s[0]));
        }
        assert(!t.contains(x)) by {
            if t.contains(x) {
                let k = choose|k: int| 0 <= k < t.len() && t[k] == x;
                assert(s[k + 1] == x);
            }
        }
        law_remove_undoes_add(t, x);
        assert(s.push(x)[0] == s[0]);
        assert(s.push(x).drop_first() =~= t.push(x));
        assert(seq![s[0]] + t =~= s);
    }
}

/// Adding keeps a list free of duplicates.
pub proof fn law_add_keeps_entries_distinct(s: Seq<Seq<char>>, x: Seq<char>)
    requires
        s.no_duplicates(),
    ensures
        with_location(s, x).no_duplicates(),
{
    if !s.contains(x) {
        let t = s.push(x);
        assert forall|i: int, j: int| 0 <= i < t.len() && 0 <= j < t.len() && i != j implies t[i]
            != t[j] by {
            if i == s.len() {
                assert(t[j] == s[j]);
                assert(s.contains(s[j]));
            } else if j == s.len() {
                assert(t[i] == s[i]);
                assert(s.contains(s[i]));
            }
        }
    }
}

/// The "Automatic" entries and the others together are the whole list.
pub proof fn law_partition_keeps_entries(s: Seq<Seq<char>>)
    ensures
        automatic_entries(s).to_multiset().add(other_entries(s).to_multiset()) == s.to_multiset(),
    decreases s.len(),
{
    broadcast use vstd::multiset::group_multiset_axioms;

    if s.len() > 0 {
        law_partition_keeps_entries(s.drop_last());
        assert(s =~= s.drop_last().push(s.last()));
        assert(s.to_multiset() =~= s.drop_last().to_multiset().insert(s.last()));
        if s.last() == automatic() {
            assert(automatic_entries(s).to_multiset() =~= automatic_entries(
                s.drop_last(),
            ).to_multiset().insert(s.last()));
        } else {
            assert(other_entries(s).to_multiset() =~= other_entries(s.drop_last()).to_multiset().insert(
                s.last(),
            ));
        }
        assert(automatic_entries(s).to_multiset().add(other_entries(s).to_multiset())
            =~= s.to_multiset());
    }
}

/// Listing in display order loses and duplicates nothing, puts the
/// "Automatic" entries first, and sorts the rest by city and then country
/// whenever they all have the "City, Country" shape.
pub proof fn law_display_order(s: Seq<Seq<char>>, all: Seq<Seq<char>>, others: Seq<Seq<char>>)
    requires
        display_order(s, all, others),
    ensures
        all.to_multiset() == s.to_multiset(),
        all.len() == s.len(),
        forall|i: int| 0 <= i < automatic_entries(s).len() ==> #[trigger] all[i] == automatic(),
        (forall|i: int|
            0 <= i < other_entries(s).len() ==> city_shaped(#[trigger] other_entries(s)[i]))
            ==> ascending(others),
{
    broadcast use vstd::multiset::group_multiset_axioms;

    law_partition_keeps_entries(s);
    vstd::seq_lib::lemma_multiset_commutative(automatic_entries(s), others);
    vstd::seq_lib::lemma_seq_union_to_multiset_commutative(automatic_entries(s), others);
    lemma_automatic_entries_are_automatic(s);
    assert forall|i: int| 0 <= i < automatic_entries(s).len() implies #[trigger] all[i]
        == automatic() by {
        assert(all[i] == automatic_entries(s)[i]);
    }
    assert(all.to_multiset() == s.to_multiset());
    assert(all.to_multiset().len() == all.len());
    assert(s.to_multiset().len() == s.len());
    if forall|i: int|
        0 <= i < other_entries(s).len() ==> city_shaped(#[trigger] other_entries(s)[i]) {
        lemma_uniform_shapes_transitive(other_entries(s));
    }
}

proof fn lemma_automatic_entries_are_automatic(s: Seq<Seq<char>>)
    ensures
        forall|i: int|
            0 <= i < automatic_entries(s).len() ==> #[trigger] automatic_entries(s)[i] == automatic(),
    decreases s.len(),
{
    if s.len() > 0 {
        let prev = automatic_entries(s.drop_last());
        lemma_automatic_entries_are_automatic(s.drop_last());
        assert forall|i: int|
            0 <= i < automatic_entries(s).len() implies #[trigger] automatic_entries(s)[i]
            == automatic() by {
            if s.last() == automatic() {
                if i < prev.len() {
                    assert(automatic_entries(s)[i] == prev[i]);
                }
            } else {
                assert(automatic_entries(s)[i] == prev[i]);
            }
        }
    }
}

/// The bookmarked locations.
pub struct LocationList {
    pub locations: Vec<String>,
}

impl LocationList {
    /// An empty list.
    pub fn new() -> (res: LocationList)
        ensures
            res.locations@.len() == 0,
    {
        LocationList { locations: Vec::new() }
    }

    /// Adds `location` unless it is already listed; says whether the list
    /// changed (and so needs saving).
    pub fn add_location(&mut self, location: String) -> (changed: bool)
        ensures
            changed == !string_views(old(self).locations@).contains(location@),
            changed ==> final(self).locations@ == old(self).locations@.push(location),
            !changed ==> final(self).locations@ == old(self).locations@,
            string_views(final(self).locations@) == with_location(
                string_views(old(self).locations@),
                location@,
            ),
    {
        let ghost before = string_views(self.locations@);
        match position_of(&self.locations, location.as_str()) {
            Some(i) => {
                assert(string_views(self.locations@)[i as int] == location@);
                false
            },
            None => {
                proof {
                    assert(!before.contains(location@));
                }
                self.locations.push(location);
                assert(string_views(self.locations@) =~= before.push(location@));
                true
            },
        }
    }

    /// Removes the first entry equal to `location`; says whether there was
    /// one (and so the list needs saving).
    pub fn remove_location_by_name(&mut self, location: &str) -> (changed: bool)
        ensures
            exists|i: Option<usize>| {
                &&& first_position(string_views(old(self).locations@), location@, i)
                &&& match i {
                    Some(k) => changed && final(self).locations@ == old(self).locations@.remove(
                        k as int,
                    ),
                    None => !changed && final(self).locations@ == old(self).locations@,
                }
            },
            string_views(final(self).locations@) == without_first(
                string_views(old(self).locations@),
                location@,
            ),
    {
        let ghost before = string_views(self.locations@);
        let found = position_of(&self.locations, location);
        proof {
            lemma_without_first_at(before, location@, found);
        }
        match found {
            Some(i) => {
                self.locations.remove(i);
                assert(string_views(self.locations@) =~= before.remove(i as int));
                true
            },
            None => false,
        }
    }

    /// The bookmarks in display order: the "Automatic" entries first, then
    /// the others sorted by city and then country (ties keep their order);
    /// also the sorted others on their own.
    pub fn get_sorted_locations(&self) -> (res: (Vec<String>, Vec<String>))
        ensures
            display_order(string_views(self.locations@), string_views(res.0@), string_views(res.1@)),
            string_views(res.0@) == display_listing(string_views(self.locations@)),
            string_views(res.1@) == insertion_sorted(other_entries(string_views(self.locations@))),
    {
        let n = self.locations.len();
        let ghost sv = string_views(self.locations@);
        let mut autos: Vec<String> = Vec::new();
        let mut others: Vec<Vec<char>> = Vec::new();
        let mut i: usize = 0;
        while i < n
            invariant
                n == self.locations@.len(),
                sv == string_views(self.locations@),
                i <= n,
                string_views(autos@) == automatic_entries(sv.take(i as int)),
                text::views(others@) == other_entries(sv.take(i as int)),
            decreases n - i,
        {
            let loc = &self.locations[i];
            assert(sv.take(i + 1).drop_last() =~= sv.take(i as int));
            assert(sv.take(i + 1).last() == loc@);
            if is_automatic(loc.as_str()) {
                autos.push(loc.clone());
                assert(string_views(autos@) =~= automatic_entries(sv.take(i + 1)));
            } else {
                others.push(text::chars_of(loc.as_str()));
                assert(text::views(others@) =~= other_entries(sv.take(i + 1)));
            }
            i = i + 1;
        }
        assert(sv.take(n as int) =~= sv);
        let sorted = sort_locations(&others);
        let sorted_strings = chars_to_strings(&sorted);
        let mut all: Vec<String> = Vec::new();
        let na = autos.len();
        let mut k: usize = 0;
        while k < na
            invariant
                na == autos@.len(),
                k <= na,
                string_views(all@) == string_views(autos@).take(k as int),
            decreases na - k,
        {
            let ghost before = all@;
            all.push(autos[k].clone());
            assert(string_views(all@) =~= string_views(before).push(autos@[k as int]@));
            assert(string_views(autos@).take(k + 1) =~= string_views(autos@).take(k as int).push(
                autos@[k as int]@,
            ));
            k = k + 1;
        }
        let ns = sorted_strings.len();
        let mut k: usize = 0;
        assert(string_views(autos@).take(na as int) =~= string_views(autos@));
        while k < ns
            invariant
                ns == sorted_strings@.len(),
                k <= ns,
                string_views(all@) == string_views(autos@) + string_views(sorted_strings@).take(
                    k as int,
                ),
            decreases ns - k,
        {
            let ghost before = all@;
            all.push(sorted_strings[k].clone());
            assert(string_views(all@) =~= string_views(before).push(sorted_strings@[k as int]@));
            assert(string_views(sorted_strings@).take(k + 1) =~= string_views(sorted_strings@).take(
                k as int,
            ).push(sorted_strings@[k as int]@));
            assert(string_views(all@) =~= string_views(autos@) + string_views(sorted_strings@).take(
                k + 1,
            ));
            k = k + 1;
        }
        assert(string_views(sorted_strings@).take(ns as int) =~= string_views(sorted_strings@));
        (all, sorted_strings)
    }

    /// The bookmarks in display order, and the position of the first one
    /// equal to `target_location` there.
    pub fn get_sorted_locations_with_index(&self, target_location: &str) -> (res: (
        Vec<String>,
        Option<usize>,
    ))
        ensures
            display_order(
                string_views(self.locations@),
                string_views(res.0@),
                string_views(res.0@).skip(automatic_entries(string_views(self.locations@)).len() as int),
            ),
            first_position(string_views(res.0@), target_location@, res.1),
            string_views(res.0@) == display_listing(string_views(self.locations@)),
    {
        let (sorted, others) = self.get_sorted_locations();
        let index = position_of(&sorted, target_location);
        assert(string_views(sorted@).skip(
            automatic_entries(string_views(self.locations@)).len() as int,
        ) =~= string_views(others@));
        (sorted, index)
    }
}

/// The label of the location the settings ask for: "Automatic" when none
/// is given, else its normal form.
pub open spec fn current_location_label(settings_location: Seq<char>) -> Seq<char> {
    if settings_location.len() == 0 {
        automatic()
    } else {
        location::normalized_location(settings_location)
    }
}

/// Why a bookmark cannot be fetched.
pub enum BookmarkError {
    /// Neither "Automatic" nor of the form "City, Country" or
    /// "City, State, Country".
    InvalidFormat,
}

/// The location setting for fetching a bookmark: empty (locate by IP) for
/// "Automatic", the bookmark itself when it has the "City, CountryCode" or
/// "City, State, CountryCode" form (two or three comma-separated parts), as
/// the location setting accepts, else an error.
pub fn settings_location_for(bookmark: &str) -> (res: Result<String, BookmarkError>)
    ensures
        bookmark@ == automatic() ==> (res matches Ok(s) && s@.len() == 0),
        bookmark@ != automatic() && (text::split_on(bookmark@, ',').len() == 2 || text::split_on(
            bookmark@,
            ',',
        ).len() == 3) ==> (res matches Ok(s) && s@ == bookmark@),
        bookmark@ != automatic() && text::split_on(bookmark@, ',').len() != 2 && text::split_on(
            bookmark@,
            ',',
        ).len() != 3 ==> res is Err,
{
    if is_automatic(bookmark) {
        return Ok(String::new());
    }
    let cs = text::chars_of(bookmark);
    let parts = text::split_chars(cs.as_slice(), ',');
    if parts.len() != 2 && parts.len() != 3 {
        return Err(BookmarkError::InvalidFormat);
    }
    Ok(bookmark.to_owned())
}

/// The bookmarks as the interactive display manages them.
pub struct LocationManager {
    pub location_list: LocationList,
}

impl LocationManager {
    /// A manager of the given bookmarks.
    pub fn new(location_list: LocationList) -> (res: LocationManager)
        ensures
            res.location_list == location_list,
    {
        LocationManager { location_list }
    }

    /// The bookmarks.
    pub fn get_location_list(&self) -> (res: &LocationList)
        ensures
            res == &self.location_list,
    {
        &self.location_list
    }

    /// Adds a bookmark unless present; says whether the list changed.
    pub fn add_location(&mut self, location: String) -> (changed: bool)
        ensures
            changed == !string_views(old(self).location_list.locations@).contains(location@),
            changed ==> final(self).location_list.locations@ == old(
                self,
            ).location_list.locations@.push(location),
            !changed ==> final(self).location_list.locations@ == old(self).location_list.locations@,
    {
        self.location_list.add_location(location)
    }

    /// Removes the first bookmark equal to `location`; says whether there
    /// was one.
    pub fn remove_location_by_name(&mut self, location: &str) -> (changed: bool)
        ensures
            exists|i: Option<usize>| {
                &&& first_position(string_views(old(self).location_list.locations@), location@, i)
                &&& match i {
                    Some(k) => changed && final(self).location_list.locations@ == old(
                        self,
                    ).location_list.locations@.remove(k as int),
                    None => !changed && final(self).location_list.locations@ == old(
                        self,
                    ).location_list.locations@,
                }
            },
    {
        self.location_list.remove_location_by_name(location)
    }

    /// The label of the location the settings ask for: "Automatic" when
    /// none is given, else its normal form.
    pub fn get_current_location_string(&self, settings_location: &str) -> (res: String)
        ensures
            res@ == current_location_label(settings_location@),
    {
        if settings_location.is_empty() {
            "Automatic".to_owned()
        } else {
            location::LocationData::normalize_location_string(settings_location)
        }
    }

    /// Makes sure the location is bookmarked; says whether it was added.
    pub fn ensure_location_in_list(&mut self, location: String) -> (changed: bool)
        ensures
            changed == !string_views(old(self).location_list.locations@).contains(location@),
            changed ==> final(self).location_list.locations@ == old(
                self,
            ).location_list.locations@.push(location),
            !changed ==> final(self).location_list.locations@ == old(self).location_list.locations@,
    {
        self.location_list.add_location(location)
    }
}

} // verus!
