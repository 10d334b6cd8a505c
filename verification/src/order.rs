//! Sorting: what tracks are ordered by, and the stable order that it gives.

use vstd::prelude::*;
use vstd::relations::*;
use vstd::seq_lib::*;
use vstd::set_lib::*;

use crate::path::{part_views, Part, PathPart};

verus! {

/// What an item is ordered by.
pub enum Rank {
    /// A path, part by part.
    Path(Seq<Part>),
    /// A text, character by character.
    Text(Seq<char>),
    /// A point in time.
    Time(int),
}

/// What an item is ordered by, in memory.
pub enum RankValue {
    Path(Vec<PathPart>),
    Text(Vec<char>),
    Time(i128),
}

impl View for RankValue {
    type V = Rank;

    open spec fn view(&self) -> Rank {
        match self {
            RankValue::Path(p) => Rank::Path(part_views(p@)),
            RankValue::Text(t) => Rank::Text(t@),
            RankValue::Time(t) => Rank::Time(*t as int),
        }
    }
}

/// Dictionary order: `a` comes before `b` where they first differ, or where `a` is the start
/// of `b`.
pub open spec fn lex_less<T>(a: Seq<T>, b: Seq<T>, less: spec_fn(T, T) -> bool) -> bool
    decreases a.len(),
{
    if b.len() == 0 {
        false
    } else if a.len() == 0 {
        true
    } else {
        less(a[0], b[0]) || (a[0] == b[0] && lex_less(a.skip(1), b.skip(1), less))
    }
}

/// The place of a kind of part in the order of parts.
pub open spec fn part_rank(p: Part) -> int {
    match p {
        Part::Root => 0,
        Part::Current => 1,
        Part::Parent => 2,
        Part::Name(_) => 3,
    }
}

/// The order of parts: by kind, and names by their bytes.
pub open spec fn part_less(a: Part, b: Part) -> bool {
    match (a, b) {
        (Part::Name(m), Part::Name(n)) => lex_less(m, n, |x: u8, y: u8| x < y),
        _ => part_rank(a) < part_rank(b),
    }
}

/// The order of paths.
pub open spec fn path_less(a: Seq<Part>, b: Seq<Part>) -> bool {
    lex_less(a, b, |x: Part, y: Part| part_less(x, y))
}

/// The order of texts.
pub open spec fn text_less(a: Seq<char>, b: Seq<char>) -> bool {
    lex_less(a, b, |x: char, y: char| x < y)
}

/// The order of ranks: paths, then texts, then times, each in its own order.
pub open spec fn rank_less(a: Rank, b: Rank) -> bool {
    match (a, b) {
        (Rank::Path(p), Rank::Path(q)) => path_less(p, q),
        (Rank::Path(_), _) => true,
        (Rank::Text(_), Rank::Path(_)) => false,
        (Rank::Text(s), Rank::Text(t)) => text_less(s, t),
        (Rank::Text(_), Rank::Time(_)) => true,
        (Rank::Time(s), Rank::Time(t)) => s < t,
        (Rank::Time(_), _) => false,
    }
}

/// Whether item `p` stays before item `q`: it ranks lower, or equal and came first.
pub open spec fn stays_before(ranks: Seq<Rank>, p: int, q: int) -> bool {
    p == q || rank_less(ranks[p], ranks[q]) || (ranks[p] == ranks[q] && p < q)
}

/// The numbers of the first `n` items.
pub open spec fn numbers(n: nat) -> Seq<int> {
    Seq::new(n, |i: int| i)
}

/// The stable order of items with these ranks: the item numbers, lowest rank first, and those
/// of equal rank as they came.
pub open spec fn stable_order(ranks: Seq<Rank>) -> Seq<int> {
    numbers(ranks.len()).sort_by(|p: int, q: int| stays_before(ranks, p, q))
}

/// The items that the numbers in `order` stand for.
pub open spec fn pick<T>(items: Seq<T>, order: Seq<int>) -> Seq<T> {
    order.map_values(|i: int| items[i])
}

/// Dictionary order is a strict total order where the order of the elements is one.
pub proof fn lemma_lex_total<T>(less: spec_fn(T, T) -> bool)
    requires
        strict_total_ordering(less),
    ensures
        strict_total_ordering(|a: Seq<T>, b: Seq<T>| lex_less(a, b, less)),
{
    let lex = |a: Seq<T>, b: Seq<T>| lex_less(a, b, less);
    assert forall|a: Seq<T>| #[trigger] lex(a, a) == false by {
        lemma_lex_irreflexive(a, less);
    }
    assert forall|a: Seq<T>, b: Seq<T>, c: Seq<T>| #[trigger]
        lex(a, b) && #[trigger] lex(b, c) implies lex(a, c) by {
        lemma_lex_transitive(a, b, c, less);
    }
    assert forall|a: Seq<T>, b: Seq<T>| a != b implies #[trigger] lex(a, b) || #[trigger] lex(
        b,
        a,
    ) by {
        lemma_lex_connected(a, b, less);
    }
    assert forall|a: Seq<T>, b: Seq<T>| #[trigger] lex(a, b) && #[trigger] lex(b, a) implies a
        == b by {
        lemma_lex_transitive(a, b, a, less);
        lemma_lex_irreflexive(a, less);
    }
}

proof fn lemma_lex_irreflexive<T>(a: Seq<T>, less: spec_fn(T, T) -> bool)
    requires
        strict_total_ordering(less),
    ensures
        !lex_less(a, a, less),
    decreases a.len(),
{
    if a.len() > 0 {
        assert(less(a[0], a[0]) == false);
        lemma_lex_irreflexive(a.skip(1), less);
    }
}

proof fn lemma_lex_transitive<T>(a: Seq<T>, b: Seq<T>, c: Seq<T>, less: spec_fn(T, T) -> bool)
    requires
        strict_total_ordering(less),
        lex_less(a, b, less),
        lex_less(b, c, less),
    ensures
        lex_less(a, c, less),
    decreases a.len(),
{
    if a.len() > 0 {
        if a[0] == b[0] && b[0] == c[0] && !less(a[0], b[0]) && !less(b[0], c[0]) {
            lemma_lex_transitive(a.skip(1), b.skip(1), c.skip(1), less);
        }
    }
}

proof fn lemma_lex_connected<T>(a: Seq<T>, b: Seq<T>, less: spec_fn(T, T) -> bool)
    requires
        strict_total_ordering(less),
        a != b,
    ensures
        lex_less(a, b, less) || lex_less(b, a, less),
    decreases a.len(),
{
    if a.len() > 0 && b.len() > 0 {
        if a[0] == b[0] {
            if a.skip(1) == b.skip(1) {
                assert forall|i: int| 0 <= i < a.len() implies i < b.len() && a[i] == b[i] by {
                    assert(a.skip(1).len() == b.skip(1).len());
                    if i > 0 {
                        assert(a.skip(1)[i - 1] == b.skip(1)[i - 1]);
                    }
                }
                assert(a.skip(1).len() == b.skip(1).len());
                assert(a =~= b);
            }
            lemma_lex_connected(a.skip(1), b.skip(1), less);
        } else {
            assert(less(a[0], b[0]) || less(b[0], a[0]));
        }
    } else {
        assert(a.len() == 0 && b.len() == 0 ==> a =~= b);
    }
}

proof fn lemma_part_total()
    ensures
        strict_total_ordering(|x: Part, y: Part| part_less(x, y)),
{
    let bytes = |x: u8, y: u8| x < y;
    assert(strict_total_ordering(bytes));
    lemma_lex_total(bytes);
    let lex = |a: Seq<u8>, b: Seq<u8>| lex_less(a, b, bytes);
    let less = |x: Part, y: Part| part_less(x, y);
    assert forall|a: Part| #[trigger] less(a, a) == false by {
        if let Part::Name(m) = a {
            assert(lex(m, m) == false);
        }
    }
    assert forall|a: Part, b: Part, c: Part| #[trigger] less(a, b) && #[trigger] less(
        b,
        c,
    ) implies less(a, c) by {
        if a is Name && b is Name && c is Name {
            assert(lex(a->Name_0, b->Name_0) && lex(b->Name_0, c->Name_0));
            assert(lex(a->Name_0, c->Name_0));
        }
    }
    assert forall|a: Part, b: Part| a != b implies #[trigger] less(a, b) || #[trigger] less(
        b,
        a,
    ) by {
        if a is Name && b is Name {
            assert(lex(a->Name_0, b->Name_0) || lex(b->Name_0, a->Name_0));
        }
    }
    assert forall|a: Part, b: Part| #[trigger] less(a, b) && #[trigger] less(b, a) implies a
        == b by {
        if a is Name && b is Name {
            assert(lex(a->Name_0, b->Name_0) && lex(b->Name_0, a->Name_0));
        }
    }
}

/// Ranks are totally ordered: of two different ranks exactly one is lower.
pub proof fn lemma_rank_total()
    ensures
        strict_total_ordering(|a: Rank, b: Rank| rank_less(a, b)),
{
    let chars = |x: char, y: char| x < y;
    assert(strict_total_ordering(chars));
    lemma_lex_total(chars);
    let text = |a: Seq<char>, b: Seq<char>| lex_less(a, b, chars);
    lemma_part_total();
    let part = |x: Part, y: Part| part_less(x, y);
    lemma_lex_total(part);
    let path = |a: Seq<Part>, b: Seq<Part>| lex_less(a, b, part);
    let less = |a: Rank, b: Rank| rank_less(a, b);
    assert forall|a: Rank| #[trigger] less(a, a) == false by {
        match a {
            Rank::Path(p) => assert(path(p, p) == false),
            Rank::Text(t) => assert(text(t, t) == false),
            Rank::Time(_) => {},
        }
    }
    assert forall|a: Rank, b: Rank, c: Rank| #[trigger] less(a, b) && #[trigger] less(
        b,
        c,
    ) implies less(a, c) by {
        if a is Path && b is Path && c is Path {
            assert(path(a->Path_0, b->Path_0) && path(b->Path_0, c->Path_0));
            assert(path(a->Path_0, c->Path_0));
        }
        if a is Text && b is Text && c is Text {
            assert(text(a->Text_0, b->Text_0) && text(b->Text_0, c->Text_0));
            assert(text(a->Text_0, c->Text_0));
        }
    }
    assert forall|a: Rank, b: Rank| a != b implies #[trigger] less(a, b) || #[trigger] less(
        b,
        a,
    ) by {
        if a is Path && b is Path {
            assert(path(a->Path_0, b->Path_0) || path(b->Path_0, a->Path_0));
        }
        if a is Text && b is Text {
            assert(text(a->Text_0, b->Text_0) || text(b->Text_0, a->Text_0));
        }
    }
    assert forall|a: Rank, b: Rank| #[trigger] less(a, b) && #[trigger] less(b, a) implies a
        == b by {
        if a is Path && b is Path {
            assert(path(a->Path_0, b->Path_0) && path(b->Path_0, a->Path_0));
        }
        if a is Text && b is Text {
            assert(text(a->Text_0, b->Text_0) && text(b->Text_0, a->Text_0));
        }
    }
}

/// Staying before is a total order of the item numbers.
pub proof fn lemma_stays_before_total(ranks: Seq<Rank>)
    ensures
        total_ordering(|p: int, q: int| stays_before(ranks, p, q)),
{
    lemma_rank_total();
    let less = |a: Rank, b: Rank| rank_less(a, b);
    let leq = |p: int, q: int| stays_before(ranks, p, q);
    assert forall|p: int, q: int, r: int| #[trigger] leq(p, q) && #[trigger] leq(
        q,
        r,
    ) implies leq(p, r) by {
        assert(less(ranks[p], ranks[q]) && less(ranks[q], ranks[r]) ==> less(ranks[p], ranks[r]));
    }
    assert forall|p: int, q: int| #[trigger] leq(p, q) && #[trigger] leq(q, p) implies p == q by {
        assert(less(ranks[p], ranks[q]) && less(ranks[q], ranks[p]) ==> less(ranks[p], ranks[p]));
        assert(less(ranks[p], ranks[p]) == false);
    }
    assert forall|p: int, q: int| #[trigger] leq(p, q) || #[trigger] leq(q, p) by {
        assert(ranks[p] != ranks[q] ==> less(ranks[p], ranks[q]) || less(ranks[q], ranks[p]));
    }
}

/// An equal start does not count in dictionary order.
proof fn lemma_lex_skip<T>(a: Seq<T>, b: Seq<T>, k: int, less: spec_fn(T, T) -> bool)
    requires
        strict_total_ordering(less),
        0 <= k <= a.len(),
        k <= b.len(),
        forall|i: int| 0 <= i < k ==> a[i] == b[i],
    ensures
        lex_less(a, b, less) == lex_less(a.skip(k), b.skip(k), less),
    decreases k,
{
    if k == 0 {
        assert(a.skip(0) =~= a);
        assert(b.skip(0) =~= b);
    } else {
        assert(less(a[0], a[0]) == false);
        assert forall|i: int| 0 <= i < k - 1 implies a.skip(1)[i] == b.skip(1)[i] by {
            assert(a[i + 1] == b[i + 1]);
        }
        lemma_lex_skip(a.skip(1), b.skip(1), k - 1, less);
        assert(a.skip(1).skip(k - 1) =~= a.skip(k));
        assert(b.skip(1).skip(k - 1) =~= b.skip(k));
    }
}

/// Whether the bytes `a` come before the bytes `b`.
fn bytes_before(a: &Vec<u8>, b: &Vec<u8>) -> (before: bool)
    ensures
        before == lex_less(a@, b@, |x: u8, y: u8| x < y),
{
    let ghost less = |x: u8, y: u8| x < y;
    assert(strict_total_ordering(less));
    let mut i: usize = 0;
    while i < a.len() && i < b.len() && a[i] == b[i]
        invariant
            i <= a@.len(),
            i <= b@.len(),
            forall|k: int| 0 <= k < i ==> a@[k] == b@[k],
        decreases a@.len() - i,
    {
        i = i + 1;
    }
    proof {
        lemma_lex_skip(a@, b@, i as int, less);
    }
    if i == b.len() {
        false
    } else if i == a.len() {
        true
    } else {
        a[i] < b[i]
    }
}

/// Whether the text `a` comes before the text `b`.
fn chars_before(a: &Vec<char>, b: &Vec<char>) -> (before: bool)
    ensures
        before == text_less(a@, b@),
{
    let ghost less = |x: char, y: char| x < y;
    assert(strict_total_ordering(less));
    let mut i: usize = 0;
    while i < a.len() && i < b.len() && a[i] == b[i]
        invariant
            i <= a@.len(),
            i <= b@.len(),
            forall|k: int| 0 <= k < i ==> a@[k] == b@[k],
        decreases a@.len() - i,
    {
        i = i + 1;
    }
    proof {
        lemma_lex_skip(a@, b@, i as int, less);
    }
    if i == b.len() {
        false
    } else if i == a.len() {
        true
    } else {
        a[i] < b[i]
    }
}

/// The place of a kind of part in the order of parts.
fn kind_of(p: &PathPart) -> (kind: u8)
    ensures
        kind == part_rank(p@),
{
    match p {
        PathPart::Root => 0,
        PathPart::Current => 1,
        PathPart::Parent => 2,
        PathPart::Name(_) => 3,
    }
}

/// Whether the part `a` comes before the part `b`.
fn part_before(a: &PathPart, b: &PathPart) -> (before: bool)
    ensures
        before == part_less(a@, b@),
{
    match (a, b) {
        (PathPart::Name(m), PathPart::Name(n)) => bytes_before(m, n),
        _ => kind_of(a) < kind_of(b),
    }
}

/// Whether the path `a` comes before the path `b`.
fn parts_before(a: &Vec<PathPart>, b: &Vec<PathPart>) -> (before: bool)
    ensures
        before == path_less(part_views(a@), part_views(b@)),
{
    let ghost less = |x: Part, y: Part| part_less(x, y);
    proof {
        lemma_part_total();
    }
    let mut i: usize = 0;
    while i < a.len() && i < b.len()
        invariant
            i <= a@.len(),
            i <= b@.len(),
            less == (|x: Part, y: Part| part_less(x, y)),
            strict_total_ordering(less),
            forall|k: int| 0 <= k < i ==> part_views(a@)[k] == part_views(b@)[k],
        decreases a@.len() - i,
    {
        proof {
            lemma_lex_skip(part_views(a@), part_views(b@), i as int, less);
            assert(part_views(a@).skip(i as int)[0] == a@[i as int]@);
            assert(part_views(b@).skip(i as int)[0] == b@[i as int]@);
        }
        if part_before(&a[i], &b[i]) {
            assert(less(a@[i as int]@, b@[i as int]@));
            return true;
        }
        if part_before(&b[i], &a[i]) {
            assert(less(b@[i as int]@, a@[i as int]@));
            assert(!less(a@[i as int]@, b@[i as int]@));
            return false;
        }
        assert(a@[i as int]@ == b@[i as int]@) by {
            assert(!less(a@[i as int]@, b@[i as int]@) && !less(b@[i as int]@, a@[i as int]@));
        }
        i = i + 1;
    }
    proof {
        lemma_lex_skip(part_views(a@), part_views(b@), i as int, less);
    }
    i < b.len()
}

/// Whether the rank `a` is lower than the rank `b`.
pub fn rank_before(a: &RankValue, b: &RankValue) -> (before: bool)
    ensures
        before == rank_less(a@, b@),
{
    match (a, b) {
        (RankValue::Path(p), RankValue::Path(q)) => parts_before(p, q),
        (RankValue::Path(_), _) => true,
        (RankValue::Text(_), RankValue::Path(_)) => false,
        (RankValue::Text(s), RankValue::Text(t)) => chars_before(s, t),
        (RankValue::Text(_), RankValue::Time(_)) => true,
        (RankValue::Time(s), RankValue::Time(t)) => *s < *t,
        (RankValue::Time(_), _) => false,
    }
}

/// The ranks that a list of `RankValue` stands for.
pub open spec fn rank_views(list: Seq<RankValue>) -> Seq<Rank> {
    list.map_values(|r: RankValue| r@)
}

/// A list of item numbers as integers.
pub open spec fn as_numbers(order: Seq<usize>) -> Seq<int> {
    order.map_values(|i: usize| i as int)
}

/// A list of all the item numbers that is sorted by `stays_before` is the stable order.
pub proof fn lemma_stable_order_unique(ranks: Seq<Rank>, order: Seq<int>)
    requires
        order.to_multiset() == numbers(ranks.len()).to_multiset(),
        sorted_by(order, |p: int, q: int| stays_before(ranks, p, q)),
    ensures
        order == stable_order(ranks),
{
    let leq = |p: int, q: int| stays_before(ranks, p, q);
    lemma_stays_before_total(ranks);
    numbers(ranks.len()).lemma_sort_by_ensures(leq);
    lemma_sorted_unique(order, stable_order(ranks), leq);
}

/// The stable order holds every item number once, and sorts the items.
pub proof fn lemma_stable_order(ranks: Seq<Rank>)
    ensures
        stable_order(ranks).len() == ranks.len(),
        stable_order(ranks).to_multiset() == numbers(ranks.len()).to_multiset(),
        forall|i: int| 0 <= i < ranks.len() ==> 0 <= #[trigger] stable_order(ranks)[i] < ranks.len(),
        forall|i: int, j: int|
            0 <= i < j < ranks.len() ==> #[trigger] stays_before(
                ranks,
                stable_order(ranks)[i],
                stable_order(ranks)[j],
            ),
{
    broadcast use group_to_multiset_ensures;

    let leq = |p: int, q: int| stays_before(ranks, p, q);
    lemma_stays_before_total(ranks);
    let all = numbers(ranks.len());
    let order = stable_order(ranks);
    all.lemma_sort_by_ensures(leq);
    assert(order.len() == order.to_multiset().len());
    assert(all.len() == all.to_multiset().len());
    assert forall|i: int| 0 <= i < ranks.len() implies 0 <= #[trigger] order[i] < ranks.len() by {
        assert(order.contains(order[i]));
        assert(all.contains(order[i]));
    }
    assert forall|i: int, j: int| 0 <= i < j < ranks.len() implies #[trigger] stays_before(
        ranks,
        order[i],
        order[j],
    ) by {
        assert(leq(order[i], order[j]));
    }
}

/// No item number stands twice in the stable order.
pub proof fn lemma_stable_order_distinct(ranks: Seq<Rank>)
    ensures
        stable_order(ranks).no_duplicates(),
{
    lemma_stable_order(ranks);
    let all = numbers(ranks.len());
    assert(all.no_duplicates());
    all.lemma_multiset_has_no_duplicates();
    stable_order(ranks).lemma_multiset_has_no_duplicates_conv();
}

/// As many item numbers as there are items, none of them twice, are all of the item numbers.
pub proof fn lemma_all_numbers(order: Seq<int>)
    requires
        order.no_duplicates(),
        forall|i: int| 0 <= i < order.len() ==> 0 <= #[trigger] order[i] < order.len(),
    ensures
        order.to_multiset() == numbers(order.len()).to_multiset(),
        forall|k: int| 0 <= k < order.len() ==> #[trigger] order.contains(k),
{
    broadcast use group_to_multiset_ensures;

    let n = order.len() as int;
    let all = numbers(order.len());
    order.unique_seq_to_set();
    lemma_int_range(0, n);
    assert(order.to_set().subset_of(set_int_range(0, n)));
    lemma_subset_equality(order.to_set(), set_int_range(0, n));
    assert forall|k: int| 0 <= k < n implies #[trigger] order.contains(k) by {
        assert(set_int_range(0, n).contains(k));
        assert(order.to_set().contains(k));
    }
    order.lemma_multiset_has_no_duplicates();
    assert(all.no_duplicates());
    all.lemma_multiset_has_no_duplicates();
    assert forall|k: int| order.to_multiset().count(k) == all.to_multiset().count(k) by {
        if 0 <= k < n {
            assert(order.contains(k));
            assert(all[k] == k);
            assert(all.contains(k));
        } else {
            assert(!order.contains(k));
            assert(!all.contains(k));
        }
    }
    assert(order.to_multiset() =~= all.to_multiset());
}

/// Moves the items into the order that `order` gives, or into the reverse of it.
pub fn arrange<T>(items: Vec<T>, order: &Vec<usize>, reverse: bool) -> (out: Vec<T>)
    requires
        order@.len() == items@.len(),
        order@.no_duplicates(),
        forall|i: int| 0 <= i < order@.len() ==> #[trigger] order@[i] < items@.len(),
    ensures
        out@ == (if reverse {
            pick(items@, as_numbers(order@)).reverse()
        } else {
            pick(items@, as_numbers(order@))
        }),
{
    let ghost all = items@;
    let n: usize = items.len();
    let mut items = items;
    let mut slots: Vec<Option<T>> = Vec::new();
    while items.len() > 0
        invariant
            n == all.len(),
            slots@.len() + items@.len() == n,
            items@ == all.take(items@.len() as int),
            forall|k: int| 0 <= k < slots@.len() ==> #[trigger] slots@[k] == Some(all[n - 1 - k]),
        decreases items@.len(),
    {
        slots.push(items.pop());
    }
    let mut out: Vec<T> = Vec::new();
    let ghost sorted = pick(all, as_numbers(order@));
    let ghost want = if reverse {
        sorted.reverse()
    } else {
        sorted
    };
    let mut i: usize = 0;
    while i < n
        invariant
            i <= n == all.len(),
            n == slots@.len(),
            n == order@.len(),
            order@.no_duplicates(),
            forall|k: int| 0 <= k < n ==> #[trigger] order@[k] < n,
            sorted == pick(all, as_numbers(order@)),
            want == (if reverse {
                sorted.reverse()
            } else {
                sorted
            }),
            out@ == want.take(i as int),
            forall|k: int|
                #![trigger order@[k]]
                i <= (if reverse {
                    n - 1 - k
                } else {
                    k
                }) && 0 <= k < n ==> slots@[n - 1 - order@[k]] == Some(all[order@[k] as int]),
        decreases n - i,
    {
        let at: usize = if reverse {
            n - 1 - i
        } else {
            i
        };
        assert(order@[at as int] < n);
        let slot: usize = n - 1 - order[at];
        let item = slots[slot].take();
        match item {
            Some(item) => {
                assert(want[i as int] == item);
                out.push(item);
            },
            None => {
                assert(false);
            },
        }
        i = i + 1;
        assert(want.take(i as int) =~= want.take(i - 1).push(want[i - 1]));
    }
    assert(want.take(n as int) =~= want);
    out
}

/// Sorts the items with these ranks: gives their numbers in the stable order.
pub fn sort_numbers(ranks: &Vec<RankValue>) -> (order: Vec<usize>)
    ensures
        as_numbers(order@) == stable_order(rank_views(ranks@)),
        order@.len() == ranks@.len(),
        order@.no_duplicates(),
        forall|i: int| 0 <= i < order@.len() ==> #[trigger] order@[i] < ranks@.len(),
{
    let ghost views = rank_views(ranks@);
    let ghost leq = |p: int, q: int| stays_before(views, p, q);
    let ghost less = |a: Rank, b: Rank| rank_less(a, b);
    proof {
        lemma_rank_total();
        lemma_stays_before_total(views);
    }
    let mut order: Vec<usize> = Vec::new();
    let mut i: usize = 0;
    assert(as_numbers(order@) =~= numbers(0));
    while i < ranks.len()
        invariant
            i <= ranks@.len(),
            views == rank_views(ranks@),
            leq == (|p: int, q: int| stays_before(views, p, q)),
            less == (|a: Rank, b: Rank| rank_less(a, b)),
            strict_total_ordering(less),
            order@.len() == i,
            forall|k: int| 0 <= k < i ==> #[trigger] order@[k] < i,
            as_numbers(order@).to_multiset() == numbers(i as nat).to_multiset(),
            forall|j: int, k: int|
                0 <= j < k < i ==> #[trigger] stays_before(views, order@[j] as int, order@[k] as int),
        decreases ranks@.len() - i,
    {
        let ghost new = views[i as int];
        let mut lo: usize = 0;
        let mut hi: usize = order.len();
        while lo < hi
            invariant
                lo <= hi <= order@.len(),
                order@.len() == i < ranks@.len(),
                views == rank_views(ranks@),
                new == views[i as int],
                less == (|a: Rank, b: Rank| rank_less(a, b)),
                strict_total_ordering(less),
                forall|k: int| 0 <= k < i ==> #[trigger] order@[k] < i,
                forall|j: int, k: int|
                    0 <= j < k < i ==> #[trigger] stays_before(
                        views,
                        order@[j] as int,
                        order@[k] as int,
                    ),
                forall|k: int| 0 <= k < lo ==> !less(new, #[trigger] views[order@[k] as int]),
                forall|k: int| hi <= k < i ==> less(new, #[trigger] views[order@[k] as int]),
            decreases hi - lo,
        {
            let mid: usize = lo + (hi - lo) / 2;
            let ghost at = views[order@[mid as int] as int];
            assert(order@[mid as int] < i);
            if rank_before(&ranks[i], &ranks[order[mid]]) {
                assert(less(new, at));
                assert forall|k: int| mid <= k < i implies less(
                    new,
                    #[trigger] views[order@[k] as int],
                ) by {
                    if k > mid {
                        assert(stays_before(views, order@[mid as int] as int, order@[k] as int));
                        assert(less(at, views[order@[k] as int]) ==> less(
                            new,
                            views[order@[k] as int],
                        ));
                    }
                }
                hi = mid;
            } else {
                assert(!less(new, at));
                assert forall|k: int| 0 <= k <= mid implies !less(
                    new,
                    #[trigger] views[order@[k] as int],
                ) by {
                    if k < mid {
                        assert(stays_before(views, order@[k] as int, order@[mid as int] as int));
                        assert(less(new, views[order@[k] as int]) && less(
                            views[order@[k] as int],
                            at,
                        ) ==> less(new, at));
                    }
                }
                lo = mid + 1;
            }
        }
        let ghost before = order@;
        order.insert(lo, i);
        proof {
            assert(as_numbers(order@) =~= as_numbers(before).insert(lo as int, i as int));
            assert(numbers((i + 1) as nat) =~= numbers(i as nat).push(i as int));
            to_multiset_insert(as_numbers(before), lo as int, i as int);
            to_multiset_build(numbers(i as nat), i as int);
            assert forall|j: int, k: int| 0 <= j < k < i + 1 implies #[trigger] stays_before(
                views,
                order@[j] as int,
                order@[k] as int,
            ) by {
                if j == lo {
                    assert(order@[k] == before[k - 1]);
                    assert(less(new, views[before[k - 1] as int]));
                } else if k == lo {
                    assert(order@[j] == before[j]);
                    let other = views[before[j] as int];
                    assert(!less(new, other));
                    assert(new != other ==> less(new, other) || less(other, new));
                } else {
                    let jj = if j < lo { j } else { j - 1 };
                    let kk = if k < lo { k } else { k - 1 };
                    assert(stays_before(views, before[jj] as int, before[kk] as int));
                }
            }
            assert forall|k: int| 0 <= k < i + 1 implies #[trigger] order@[k] < i + 1 by {
                if k < lo {
                    assert(order@[k] == before[k]);
                } else if k > lo {
                    assert(order@[k] == before[k - 1]);
                }
            }
        }
        i = i + 1;
    }
    proof {
        assert forall|j: int, k: int| 0 <= j < k < as_numbers(order@).len() implies #[trigger] leq(
            as_numbers(order@)[j],
            as_numbers(order@)[k],
        ) by {
            assert(stays_before(views, order@[j] as int, order@[k] as int));
        }
        lemma_stable_order_unique(views, as_numbers(order@));
        lemma_stable_order_distinct(views);
        assert forall|j: int, k: int| 0 <= j < order@.len() && 0 <= k < order@.len() && j
            != k implies order@[j] != order@[k] by {
            assert(as_numbers(order@)[j] != as_numbers(order@)[k]);
        }
    }
    order
}

/// Whether `a` and `b` are the same up to position `k`.
pub open spec fn agree<T>(a: Seq<T>, b: Seq<T>, k: int) -> bool {
    &&& 0 <= k <= a.len()
    &&& k <= b.len()
    &&& forall|i: int| 0 <= i < k ==> #[trigger] a[i] == b[i]
}

proof fn lemma_lex_at<T>(a: Seq<T>, b: Seq<T>, k: int, less: spec_fn(T, T) -> bool)
    requires
        strict_total_ordering(less),
        agree(a, b, k),
    ensures
        k < b.len() && (k == a.len() || less(a[k], b[k])) ==> lex_less(a, b, less),
        k < a.len() && (k == b.len() || less(b[k], a[k])) ==> !lex_less(a, b, less),
{
    lemma_lex_skip(a, b, k, less);
    if k < a.len() && k < b.len() {
        assert(a.skip(k)[0] == a[k] && b.skip(k)[0] == b[k]);
        assert(less(a[k], b[k]) && less(b[k], a[k]) ==> a[k] == b[k]);
        assert(less(a[k], a[k]) == false);
    }
}

proof fn lemma_lex_differ<T>(a: Seq<T>, b: Seq<T>, less: spec_fn(T, T) -> bool) -> (k: int)
    requires
        lex_less(a, b, less),
    ensures
        agree(a, b, k),
        k < b.len(),
        k == a.len() || less(a[k], b[k]),
    decreases a.len(),
{
    if a.len() == 0 || less(a[0], b[0]) {
        0
    } else {
        let k = lemma_lex_differ(a.skip(1), b.skip(1), less);
        assert forall|i: int| 0 <= i < k + 1 implies #[trigger] a[i] == b[i] by {
            if i > 0 {
                assert(a.skip(1)[i - 1] == b.skip(1)[i - 1]);
            }
        }
        k + 1
    }
}

/// A text comes before another if and only if, where they first differ, it ends or has the lower
/// character.
pub proof fn lemma_text_order(a: Seq<char>, b: Seq<char>)
    ensures
        text_less(a, b) <==> exists|k: int| #[trigger]
            agree(a, b, k) && k < b.len() && (k == a.len() || a[k] < b[k]),
{
    let less = |x: char, y: char| x < y;
    assert(strict_total_ordering(less));
    if text_less(a, b) {
        let k = lemma_lex_differ(a, b, less);
        assert(agree(a, b, k));
    }
    if exists|k: int| #[trigger]
        agree(a, b, k) && k < b.len() && (k == a.len() || a[k] < b[k]) {
        let k = choose|k: int| #[trigger]
            agree(a, b, k) && k < b.len() && (k == a.len() || a[k] < b[k]);
        lemma_lex_at(a, b, k, less);
    }
}

/// The root comes before the current directory, that before the parent, and that before every
/// name. A name comes before another if and only if, where they first differ, it ends or has the
/// lower byte.
pub proof fn lemma_part_order(a: Part, b: Part)
    ensures
        a is Root ==> (part_less(a, b) <==> !(b is Root)),
        a is Current ==> (part_less(a, b) <==> b is Parent || b is Name),
        a is Parent ==> (part_less(a, b) <==> b is Name),
        a is Name && !(b is Name) ==> !part_less(a, b),
        a matches Part::Name(m) ==> b matches Part::Name(n) ==> (part_less(a, b) <==> exists|
            k: int,
        | #[trigger]
            agree(m, n, k) && k < n.len() && (k == m.len() || m[k] < n[k])),
{
    let less = |x: u8, y: u8| x < y;
    assert(strict_total_ordering(less));
    if a is Name && b is Name {
        let m = a->Name_0;
        let n = b->Name_0;
        if part_less(a, b) {
            let k = lemma_lex_differ(m, n, less);
            assert(agree(m, n, k));
        }
        if exists|k: int| #[trigger]
            agree(m, n, k) && k < n.len() && (k == m.len() || m[k] < n[k]) {
            let k = choose|k: int| #[trigger]
                agree(m, n, k) && k < n.len() && (k == m.len() || m[k] < n[k]);
            lemma_lex_at(m, n, k, less);
        }
    }
}

/// A path comes before another if and only if, where their parts first differ, it ends or has
/// the part that comes first.
pub proof fn lemma_path_order(a: Seq<Part>, b: Seq<Part>)
    ensures
        path_less(a, b) <==> exists|k: int| #[trigger]
            agree(a, b, k) && k < b.len() && (k == a.len() || part_less(a[k], b[k])),
{
    let less = |x: Part, y: Part| part_less(x, y);
    lemma_part_total();
    if path_less(a, b) {
        let k = lemma_lex_differ(a, b, less);
        assert(agree(a, b, k));
    }
    if exists|k: int| #[trigger]
        agree(a, b, k) && k < b.len() && (k == a.len() || part_less(a[k], b[k])) {
        let k = choose|k: int| #[trigger]
            agree(a, b, k) && k < b.len() && (k == a.len() || part_less(a[k], b[k]));
        assert(less(a[k], b[k]) == part_less(a[k], b[k]));
        lemma_lex_at(a, b, k, less);
    }
}

/// In the stable order an item stands before another if and only if its rank is lower, or the
/// same and it came first: `i` and `j` are where the two stand.
pub proof fn lemma_order_places(ranks: Seq<Rank>, i: int, j: int)
    requires
        0 <= i < ranks.len(),
        0 <= j < ranks.len(),
    ensures
        ({
            let p = stable_order(ranks)[i];
            let q = stable_order(ranks)[j];
            &&& 0 <= p < ranks.len()
            &&& 0 <= q < ranks.len()
            &&& rank_less(ranks[p], ranks[q]) ==> i < j
            &&& ranks[p] == ranks[q] ==> (i < j <==> p < q)
        }),
{
    lemma_stable_order(ranks);
    lemma_stable_order_distinct(ranks);
    lemma_rank_total();
    let less = |a: Rank, b: Rank| rank_less(a, b);
    let order = stable_order(ranks);
    let p = order[i];
    let q = order[j];
    assert(less(ranks[p], ranks[p]) == false);
    assert(less(ranks[p], ranks[q]) && less(ranks[q], ranks[p]) ==> ranks[p] == ranks[q]);
    if i < j {
        assert(stays_before(ranks, order[i], order[j]));
        assert(p != q);
    } else if j < i {
        assert(stays_before(ranks, order[j], order[i]));
        assert(p != q);
    }
}

/// What is ordered, in memory, is ordered by what it holds.
pub proof fn lemma_rank_views(rank: RankValue, list: Seq<RankValue>, order: Seq<usize>)
    ensures
        rank matches RankValue::Path(p) ==> rank@ == Rank::Path(part_views(p@)),
        rank matches RankValue::Text(t) ==> rank@ == Rank::Text(t@),
        rank matches RankValue::Time(t) ==> rank@ == Rank::Time(t as int),
        rank_views(list).len() == list.len(),
        forall|i: int| 0 <= i < list.len() ==> #[trigger] rank_views(list)[i] == list[i]@,
        as_numbers(order).len() == order.len(),
        forall|i: int| 0 <= i < order.len() ==> #[trigger] as_numbers(order)[i] == order[i],
{
}

} // verus!
