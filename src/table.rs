//! An in-memory table of submissions that answers topic listings as the
//! store does: in index order, a page at a time, resuming after a cursor.
//!
//! Items of the topic index are ordered by their position: the index sort
//! key, then the table's partition key to break ties. A cursor marks a
//! position; a listing resumes at the first item past it, whether or not the
//! item it came from is still stored.
use vstd::prelude::*;
use crate::cursor::{sorted_names, unique_names, Attribute, Cursor};
use crate::keys::{
    lemma_precedes_irreflexive, lemma_precedes_total, lemma_precedes_transitive, precedes, sortable, str_precedes,
};
use crate::query::{
    ascending_of, has_index_keys, limit_of, plan_topic_query, ListItemsByTopicInput, ListItemsByTopicOutput,
    PK_NAME, SK_NAME, TOPIC_PK_NAME, TOPIC_SK_NAME,
};
use crate::result::Error;
use crate::submission::{topic_partition, Submission};

verus! {

/// A place in the topic index: a sort key, then a primary partition key.
pub type Position = (Seq<char>, Seq<char>);

/// Where a submission stands in the topic index.
pub open spec fn position_of(s: Submission) -> Position {
    (s.topic_key.sk@, s.primary_key.pk@)
}

/// Strict order of index positions: by sort key, then by partition key.
pub open spec fn pos_less(a: Position, b: Position) -> bool {
    precedes(a.0, b.0) || (a.0 == b.0 && precedes(a.1, b.1))
}

proof fn lemma_pos_irreflexive(a: Position)
    ensures
        !pos_less(a, a),
{
    lemma_precedes_irreflexive(a.0);
    lemma_precedes_irreflexive(a.1);
}

proof fn lemma_pos_transitive(a: Position, b: Position, c: Position)
    requires
        pos_less(a, b),
        pos_less(b, c),
    ensures
        pos_less(a, c),
{
    if precedes(a.0, b.0) && precedes(b.0, c.0) {
        lemma_precedes_transitive(a.0, b.0, c.0);
    } else if a.0 == b.0 && b.0 == c.0 {
        lemma_precedes_transitive(a.1, b.1, c.1);
    }
}

proof fn lemma_pos_total(a: Position, b: Position)
    requires
        a != b,
    ensures
        pos_less(a, b) || pos_less(b, a),
{
    if a.0 != b.0 {
        lemma_precedes_total(a.0, b.0);
    } else {
        assert(a.1 != b.1);
        lemma_precedes_total(a.1, b.1);
    }
}

/// Whether every submission in `t` has the keys its attributes give, with a
/// sortable score and creation time, distinct primary keys, and all of
/// them in strictly increasing index position.
pub open spec fn table_wf(t: Seq<Submission>) -> bool {
    &&& forall|i: int| 0 <= i < t.len() ==> #[trigger] stored_ok(t[i])
    &&& unique_pks(t)
    &&& forall|i: int, j: int| 0 <= i < j < t.len() ==> pos_less(position_of(#[trigger] t[i]), position_of(#[trigger] t[j]))
}

/// A submission that the table accepts.
pub open spec fn stored_ok(s: Submission) -> bool {
    s.keys_derived() && sortable(s.ranking_score as int) && sortable(s.created_at.secs as int)
}

/// The submissions of `t` in the topic index partition of `topic`, in the
/// order of `t`.
pub open spec fn topic_items(t: Seq<Submission>, topic: Seq<char>) -> Seq<Submission>
    decreases t.len(),
{
    if t.len() == 0 {
        seq![]
    } else {
        let rest = topic_items(t.drop_last(), topic);
        if t.last().topic_key.pk@ == topic_partition(topic) { rest.push(t.last()) } else { rest }
    }
}

/// What a scan of the topic visits, in scan order.
pub open spec fn scan_order(t: Seq<Submission>, topic: Seq<char>, ascending: bool) -> Seq<Submission> {
    if ascending { topic_items(t, topic) } else { topic_items(t, topic).reverse() }
}

/// `b` comes after `a` in the scan direction.
pub open spec fn scan_after(a: Position, b: Position, ascending: bool) -> bool {
    if ascending { pos_less(a, b) } else { pos_less(b, a) }
}

/// The key attributes of a submission in the topic index, in canonical
/// order: where a scan that stopped after it resumes.
pub open spec fn key_attrs(s: Submission) -> Seq<Attribute> {
    seq![
        (TOPIC_PK_NAME@, s.topic_key.pk@),
        (TOPIC_SK_NAME@, s.topic_key.sk@),
        (PK_NAME@, s.primary_key.pk@),
        (SK_NAME@, s.primary_key.sk@),
    ]
}

/// The value of the first attribute named `name`.
pub open spec fn value_of(c: Seq<Attribute>, name: Seq<char>) -> Option<Seq<char>>
    decreases c.len(),
{
    if c.len() == 0 {
        None
    } else if c[0].0 == name {
        Some(c[0].1)
    } else {
        value_of(c.drop_first(), name)
    }
}

/// The index position that a resume point marks.
pub open spec fn cursor_position(c: Seq<Attribute>) -> Option<Position> {
    match (value_of(c, TOPIC_SK_NAME@), value_of(c, PK_NAME@)) {
        (Some(sk), Some(pk)) => Some((sk, pk)),
        _ => None,
    }
}

/// The first index from `from` on of an item past position `p` in the scan
/// direction; the length where there is none.
pub open spec fn first_after(items: Seq<Submission>, p: Position, ascending: bool, from: int) -> int
    decreases items.len() - from,
{
    if from < 0 || from >= items.len() {
        items.len() as int
    } else if scan_after(p, position_of(items[from]), ascending) {
        from
    } else {
        first_after(items, p, ascending, from + 1)
    }
}

/// Where a scan of `items` starts: at the front, or at the first item past
/// the position the cursor marks; `None` where it marks none.
pub open spec fn resume_index(items: Seq<Submission>, cursor: Option<Seq<Attribute>>, ascending: bool) -> Option<
    int,
> {
    match cursor {
        None => Some(0),
        Some(c) => match cursor_position(c) {
            Some(p) => Some(first_after(items, p, ascending, 0)),
            None => None,
        },
    }
}

/// The page that a listing returns: at most `limit` items from the resume
/// point on, and a cursor exactly when more items follow the page.
pub open spec fn list_page(
    t: Seq<Submission>,
    topic: Seq<char>,
    ascending: bool,
    limit: int,
    cursor: Option<Seq<Attribute>>,
) -> Option<(Seq<Submission>, Option<Seq<Attribute>>)> {
    let items = scan_order(t, topic, ascending);
    match resume_index(items, cursor, ascending) {
        None => None,
        Some(s) => if s + limit < items.len() {
            Some((items.subrange(s, s + limit), Some(key_attrs(items[s + limit - 1]))))
        } else {
            Some((items.subrange(s, items.len() as int), None))
        },
    }
}

pub open spec fn cursor_view(c: Option<Cursor>) -> Option<Seq<Attribute>> {
    match c {
        Some(c) => Some(c@),
        None => None,
    }
}

/// No two submissions share a primary key.
pub open spec fn unique_pks(t: Seq<Submission>) -> bool {
    forall|i: int, j: int|
        0 <= i < j < t.len() ==> #[trigger] t[i].primary_key.pk@ != #[trigger] t[j].primary_key.pk@
}

/// Items strictly increase in position along `items` in the scan direction.
pub open spec fn scan_sorted(items: Seq<Submission>, ascending: bool) -> bool {
    forall|i: int, j: int|
        0 <= i < j < items.len() ==> scan_after(position_of(#[trigger] items[i]), position_of(#[trigger] items[j]), ascending)
}

pub open spec fn items_at(t: Seq<Submission>, idx: Seq<usize>) -> Seq<Submission> {
    Seq::new(idx.len(), |k: int| t[idx[k] as int])
}

proof fn lemma_topic_items_from(t: Seq<Submission>, topic: Seq<char>)
    ensures
        forall|k: int| 0 <= k < topic_items(t, topic).len() ==> exists|m: int| 0 <= m < t.len()
            && #[trigger] topic_items(t, topic)[k] == t[m],
    decreases t.len(),
{
    if t.len() > 0 {
        lemma_topic_items_from(t.drop_last(), topic);
        let rest = topic_items(t.drop_last(), topic);
        assert forall|k: int| 0 <= k < topic_items(t, topic).len() implies exists|m: int| 0 <= m < t.len()
            && #[trigger] topic_items(t, topic)[k] == t[m] by {
            if k < rest.len() {
                let m = choose|m: int| 0 <= m < t.drop_last().len() && rest[k] == t.drop_last()[m];
                assert(topic_items(t, topic)[k] == t[m]);
            } else {
                assert(topic_items(t, topic)[k] == t[t.len() - 1]);
            }
        }
    }
}

/// The items under a topic are in strictly increasing position, each in the
/// topic's partition and with the keys its attributes give.
pub proof fn lemma_topic_items_sorted(t: Seq<Submission>, topic: Seq<char>)
    requires
        table_wf(t),
    ensures
        scan_sorted(topic_items(t, topic), true),
        unique_pks(topic_items(t, topic)),
        forall|k: int| 0 <= k < topic_items(t, topic).len() ==> #[trigger] stored_ok(topic_items(t, topic)[k])
            && topic_items(t, topic)[k].topic_key.pk@ == topic_partition(topic),
    decreases t.len(),
{
    if t.len() > 0 {
        let t1 = t.drop_last();
        assert(table_wf(t1)) by {
            assert forall|i: int| 0 <= i < t1.len() implies #[trigger] stored_ok(t1[i]) by {
                assert(t[i] == t1[i]);
            }
            assert forall|i: int, j: int| 0 <= i < j < t1.len() implies #[trigger] t1[i].primary_key.pk@
                != #[trigger] t1[j].primary_key.pk@ by {
                assert(t[i] == t1[i] && t[j] == t1[j]);
            }
            assert forall|i: int, j: int| 0 <= i < j < t1.len() implies pos_less(
                position_of(#[trigger] t1[i]),
                position_of(#[trigger] t1[j]),
            ) by {
                assert(t[i] == t1[i] && t[j] == t1[j]);
            }
        }
        lemma_topic_items_sorted(t1, topic);
        lemma_topic_items_from(t1, topic);
        let rest = topic_items(t1, topic);
        let all = topic_items(t, topic);
        let last = t[t.len() - 1];
        assert(stored_ok(last));
        if last.topic_key.pk@ == topic_partition(topic) {
            assert forall|i: int, j: int| 0 <= i < j < all.len() implies scan_after(
                position_of(#[trigger] all[i]),
                position_of(#[trigger] all[j]),
                true,
            ) && all[i].primary_key.pk@ != all[j].primary_key.pk@ by {
                if j < rest.len() {
                    assert(all[i] == rest[i] && all[j] == rest[j]);
                } else {
                    let m = choose|m: int| 0 <= m < t1.len() && #[trigger] rest[i] == t1[m];
                    assert(all[i] == t[m]);
                    assert(all[j] == last);
                    assert(pos_less(position_of(t[m]), position_of(t[t.len() - 1])));
                }
            }
            assert forall|k: int| 0 <= k < all.len() implies #[trigger] stored_ok(all[k])
                && all[k].topic_key.pk@ == topic_partition(topic) by {
                if k < rest.len() {
                    assert(all[k] == rest[k]);
                }
            }
        }
    }
}

/// Scans visit items in strictly increasing position in their direction.
pub proof fn lemma_scan_sorted(t: Seq<Submission>, topic: Seq<char>, ascending: bool)
    requires
        table_wf(t),
    ensures
        scan_sorted(scan_order(t, topic, ascending), ascending),
        unique_pks(scan_order(t, topic, ascending)),
{
    lemma_topic_items_sorted(t, topic);
    if !ascending {
        let up = topic_items(t, topic);
        let r = up.reverse();
        assert forall|i: int, j: int| 0 <= i < j < r.len() implies scan_after(
            position_of(#[trigger] r[i]),
            position_of(#[trigger] r[j]),
            false,
        ) && r[i].primary_key.pk@ != r[j].primary_key.pk@ by {
            assert(r[i] == up[up.len() - 1 - i]);
            assert(r[j] == up[up.len() - 1 - j]);
        }
    }
}

proof fn lemma_first_after(items: Seq<Submission>, p: Position, ascending: bool, from: int)
    requires
        0 <= from,
    ensures
        from <= first_after(items, p, ascending, from) <= items.len() || (from > items.len()
            && first_after(items, p, ascending, from) == items.len()),
        forall|k: int| from <= k < first_after(items, p, ascending, from) ==> !scan_after(p, position_of(#[trigger] items[k]), ascending),
        first_after(items, p, ascending, from) < items.len() ==> scan_after(
            p,
            position_of(items[first_after(items, p, ascending, from)]),
            ascending,
        ),
    decreases items.len() - from,
{
    if from < items.len() && !scan_after(p, position_of(items[from]), ascending) {
        lemma_first_after(items, p, ascending, from + 1);
    }
}

proof fn lemma_value_of(c: Seq<Attribute>, i: int)
    requires
        unique_names(c),
        0 <= i < c.len(),
    ensures
        value_of(c, c[i].0) == Some(c[i].1),
    decreases c.len(),
{
    if i > 0 {
        let c1 = c.drop_first();
        assert(c[0].0 != c[i].0);
        assert(unique_names(c1)) by {
            assert forall|a: int, b: int| 0 <= a < b < c1.len() implies #[trigger] c1[a].0 != #[trigger] c1[b].0 by {
                assert(c[a + 1].0 != c[b + 1].0);
            }
        }
        assert(c1[i - 1] == c[i]);
        lemma_value_of(c1, i - 1);
    }
}

proof fn lemma_key_names()
    ensures
        precedes(TOPIC_PK_NAME@, TOPIC_SK_NAME@),
        precedes(TOPIC_SK_NAME@, PK_NAME@),
        precedes(PK_NAME@, SK_NAME@),
        TOPIC_PK_NAME@ != TOPIC_SK_NAME@,
        TOPIC_PK_NAME@ != PK_NAME@,
        TOPIC_SK_NAME@ != PK_NAME@,
        PK_NAME@ != SK_NAME@,
        TOPIC_SK_NAME@ != SK_NAME@,
{
    reveal_strlit("PK");
    reveal_strlit("SK");
    reveal_strlit("GSI1_PK");
    reveal_strlit("GSI1_SK");
    assert(PK_NAME@ =~= seq!['P', 'K']);
    assert(SK_NAME@ =~= seq!['S', 'K']);
    assert(TOPIC_PK_NAME@ =~= seq!['G', 'S', 'I', '1', '_', 'P', 'K']);
    assert(TOPIC_SK_NAME@ =~= seq!['G', 'S', 'I', '1', '_', 'S', 'K']);
    reveal_with_fuel(precedes, 8);
    let (a, b) = (TOPIC_PK_NAME@, TOPIC_SK_NAME@);
    assert(a.drop_first() =~= seq!['S', 'I', '1', '_', 'P', 'K']);
    assert(b.drop_first() =~= seq!['S', 'I', '1', '_', 'S', 'K']);
    assert(a.drop_first().drop_first() =~= seq!['I', '1', '_', 'P', 'K']);
    assert(b.drop_first().drop_first() =~= seq!['I', '1', '_', 'S', 'K']);
    assert(a.drop_first().drop_first().drop_first() =~= seq!['1', '_', 'P', 'K']);
    assert(b.drop_first().drop_first().drop_first() =~= seq!['1', '_', 'S', 'K']);
    assert(a.drop_first().drop_first().drop_first().drop_first() =~= seq!['_', 'P', 'K']);
    assert(b.drop_first().drop_first().drop_first().drop_first() =~= seq!['_', 'S', 'K']);
    assert(a.drop_first().drop_first().drop_first().drop_first().drop_first() =~= seq!['P', 'K']);
    assert(b.drop_first().drop_first().drop_first().drop_first().drop_first() =~= seq!['S', 'K']);
    assert(a[5] != b[5]);
    assert(TOPIC_SK_NAME@[0] != PK_NAME@[0]);
}

/// The key attributes of a submission are in canonical order, and mark its
/// position.
proof fn lemma_key_attrs(s: Submission)
    ensures
        sorted_names(key_attrs(s)),
        unique_names(key_attrs(s)),
        cursor_position(key_attrs(s)) == Some(position_of(s)),
{
    let c = key_attrs(s);
    lemma_key_names();
    lemma_precedes_transitive(TOPIC_PK_NAME@, TOPIC_SK_NAME@, PK_NAME@);
    lemma_precedes_transitive(TOPIC_SK_NAME@, PK_NAME@, SK_NAME@);
    lemma_precedes_transitive(TOPIC_PK_NAME@, PK_NAME@, SK_NAME@);
    assert(sorted_names(c));
    crate::cursor::lemma_sorted_unique(c);
    lemma_value_of(c, 1);
    lemma_value_of(c, 2);
}

/// In a sequence strictly increasing in scan direction, the resume point
/// of an item leads to the item just after it.
proof fn lemma_resume_after_item(items: Seq<Submission>, ascending: bool, i: int)
    requires
        scan_sorted(items, ascending),
        0 <= i < items.len(),
    ensures
        resume_index(items, Some(key_attrs(items[i])), ascending) == Some(i + 1),
{
    let p = position_of(items[i]);
    lemma_key_attrs(items[i]);
    lemma_first_after(items, p, ascending, 0);
    let f = first_after(items, p, ascending, 0);
    if f <= i {
        if f < i {
            assert(scan_after(position_of(items[f]), p, ascending));
            if ascending {
                lemma_pos_transitive(p, position_of(items[f]), p);
            } else {
                lemma_pos_transitive(p, position_of(items[f]), p);
            }
        }
        lemma_pos_irreflexive(p);
    }
    if f > i + 1 {
        assert(scan_after(p, position_of(items[i + 1]), ascending));
    }
}

/// Following a listing's cursors for `rounds` more requests, from the
/// resume point `cursor` on: the items of all pages, in order.
pub open spec fn follow_pages(
    t: Seq<Submission>,
    topic: Seq<char>,
    ascending: bool,
    limit: int,
    cursor: Option<Seq<Attribute>>,
    rounds: nat,
) -> Seq<Submission>
    decreases rounds,
{
    if rounds == 0 {
        seq![]
    } else {
        match list_page(t, topic, ascending, limit, cursor) {
            Some((items, Some(next))) => items + follow_pages(t, topic, ascending, limit, Some(next), (rounds - 1) as nat),
            Some((items, None)) => items,
            None => seq![],
        }
    }
}

proof fn lemma_follow_from(
    t: Seq<Submission>,
    topic: Seq<char>,
    ascending: bool,
    limit: int,
    cursor: Option<Seq<Attribute>>,
    s: int,
    rounds: nat,
)
    requires
        scan_sorted(scan_order(t, topic, ascending), ascending),
        limit >= 1,
        resume_index(scan_order(t, topic, ascending), cursor, ascending) == Some(s),
        0 <= s <= scan_order(t, topic, ascending).len(),
        rounds * limit >= scan_order(t, topic, ascending).len() - s,
        rounds >= 1,
    ensures
        follow_pages(t, topic, ascending, limit, cursor, rounds) == scan_order(t, topic, ascending).subrange(
            s,
            scan_order(t, topic, ascending).len() as int,
        ),
    decreases rounds,
{
    let items = scan_order(t, topic, ascending);
    let n = items.len() as int;
    if s + limit < n {
        let next = key_attrs(items[s + limit - 1]);
        lemma_resume_after_item(items, ascending, s + limit - 1);
        assert(rounds >= 2) by (nonlinear_arith)
            requires rounds * limit >= n - s, s + limit < n, rounds >= 1;
        let r1: int = rounds - 1;
        assert(r1 * limit == rounds * limit - limit) by (nonlinear_arith)
            requires r1 == rounds - 1;
        assert((rounds - 1) as nat * limit >= n - (s + limit));
        lemma_follow_from(t, topic, ascending, limit, Some(next), s + limit, (rounds - 1) as nat);
        assert(items.subrange(s, s + limit) + items.subrange(s + limit, n) =~= items.subrange(s, n));
    }
}

/// Paging through a topic with any positive page size, following each
/// returned cursor, yields exactly the items of one unbounded scan in the
/// same direction, in the same order.
pub proof fn lemma_pagination_complete(
    t: Seq<Submission>,
    topic: Seq<char>,
    ascending: bool,
    limit: int,
    rounds: nat,
)
    requires
        table_wf(t),
        limit >= 1,
        rounds >= 1,
        rounds * limit >= scan_order(t, topic, ascending).len(),
    ensures
        follow_pages(t, topic, ascending, limit, None, rounds) == scan_order(t, topic, ascending),
        list_page(t, topic, ascending, scan_order(t, topic, ascending).len() as int + 1, None) == Some(
            (scan_order(t, topic, ascending), None::<Seq<Attribute>>),
        ),
{
    lemma_scan_sorted(t, topic, ascending);
    lemma_follow_from(t, topic, ascending, limit, None, 0, rounds);
    let items = scan_order(t, topic, ascending);
    assert(items.subrange(0, items.len() as int) =~= items);
}

/// A descending listing that fits on one page is the ascending one reversed.
pub proof fn lemma_reverse_inverts(t: Seq<Submission>, topic: Seq<char>, limit: int)
    requires
        limit > topic_items(t, topic).len(),
    ensures
        list_page(t, topic, false, limit, None) matches Some((down, None)) && list_page(
            t,
            topic,
            true,
            limit,
            None,
        ) matches Some((up, None)) && down == up.reverse(),
{
    let up = topic_items(t, topic);
    assert(up.subrange(0, up.len() as int) =~= up);
    assert(up.reverse().subrange(0, up.len() as int) =~= up.reverse());
}

/// Submissions held in memory, each with the keys its attributes give, each
/// primary key at most once, in strictly increasing index position.
pub struct MemoryTable {
    items: Vec<Submission>,
}

impl View for MemoryTable {
    type V = Seq<Submission>;

    closed spec fn view(&self) -> Seq<Submission> {
        self.items@
    }
}

impl MemoryTable {
    #[verifier::type_invariant]
    spec fn well_formed(&self) -> bool {
        table_wf(self.items@)
    }

    pub fn new() -> (r: MemoryTable)
        ensures
            r@ == Seq::<Submission>::empty(),
    {
        MemoryTable { items: Vec::new() }
    }

    /// The number of submissions held.
    pub fn len(&self) -> (r: usize)
        ensures
            r == self@.len(),
            table_wf(self@),
    {
        proof { use_type_invariant(self); }
        self.items.len()
    }

    /// Stores `subm` at its index position, in place of a submission with
    /// the same primary key. A submission whose keys are not those its
    /// attributes give, or whose score or creation time is not sortable, is
    /// refused with `InvalidInputData` and nothing changes.
    pub fn create_item(&mut self, subm: Submission) -> (r: Result<(), Error>)
        ensures
            r is Ok <==> stored_ok(subm),
            r matches Err(e) ==> e is InvalidInputData && final(self)@ == old(self)@,
            table_wf(final(self)@),
            r is Ok ==> forall|x: Submission| #[trigger] final(self)@.contains(x) <==> (x == subm || (old(
                self,
            )@.contains(x) && x.primary_key.pk@ != subm.primary_key.pk@)),
    {
        proof { use_type_invariant(&*self); }
        if !stored_consistent(&subm) {
            return Err(Error::InvalidInputData(String::from_str("keys do not match the attributes")));
        }
        let mut taken = MemoryTable::new();
        core::mem::swap(self, &mut taken);
        let mut items = taken.items;
        let ghost old_items = items@;
        let mut j: usize = 0;
        while j < items.len() && items[j].primary_key.pk != subm.primary_key.pk
            invariant
                items@ == old_items,
                j <= items@.len(),
                forall|k: int| 0 <= k < j ==> #[trigger] items@[k].primary_key.pk@ != subm.primary_key.pk@,
            decreases items@.len() - j,
        {
            j += 1;
        }
        if j < items.len() {
            items.remove(j);
            proof {
                assert forall|x: Submission| #[trigger] items@.contains(x) <==> (old_items.contains(x)
                    && x.primary_key.pk@ != subm.primary_key.pk@) by {
                    if items@.contains(x) {
                        let m = choose|m: int| 0 <= m < items@.len() && items@[m] == x;
                        if m < j {
                            assert(old_items[m] == x);
                            assert(old_items[m].primary_key.pk@ != old_items[j as int].primary_key.pk@);
                        } else {
                            assert(old_items[m + 1] == x);
                            assert(old_items[j as int].primary_key.pk@ != old_items[m + 1].primary_key.pk@);
                        }
                    }
                    if old_items.contains(x) && x.primary_key.pk@ != subm.primary_key.pk@ {
                        let m = choose|m: int| 0 <= m < old_items.len() && old_items[m] == x;
                        if m < j {
                            assert(items@[m] == x);
                        } else {
                            assert(m != j);
                            assert(items@[m - 1] == x);
                        }
                    }
                }
            }
        } else {
            proof {
                assert forall|x: Submission| #[trigger] items@.contains(x) <==> (old_items.contains(x)
                    && x.primary_key.pk@ != subm.primary_key.pk@) by {
                    if old_items.contains(x) {
                        let m = choose|m: int| 0 <= m < old_items.len() && old_items[m] == x;
                        assert(old_items[m].primary_key.pk@ != subm.primary_key.pk@);
                    }
                }
            }
        }
        let ghost kept = items@;
        assert(table_wf(kept)) by {
            assert forall|a: int| 0 <= a < kept.len() implies #[trigger] stored_ok(kept[a]) by {
                if j < old_items.len() && a >= j {
                    assert(kept[a] == old_items[a + 1]);
                } else {
                    assert(kept[a] == old_items[a]);
                }
            }
            assert forall|a: int, b: int| 0 <= a < b < kept.len() implies #[trigger] kept[a].primary_key.pk@
                != #[trigger] kept[b].primary_key.pk@ && pos_less(position_of(kept[a]), position_of(kept[b])) by {
                if j < old_items.len() {
                    if b < j {
                        assert(kept[a] == old_items[a] && kept[b] == old_items[b]);
                    } else if a < j {
                        assert(kept[a] == old_items[a] && kept[b] == old_items[b + 1]);
                    } else {
                        assert(kept[a] == old_items[a + 1] && kept[b] == old_items[b + 1]);
                    }
                } else {
                    assert(kept[a] == old_items[a] && kept[b] == old_items[b]);
                }
            }
        }
        assert forall|k: int| 0 <= k < kept.len() implies #[trigger] kept[k].primary_key.pk@
            != subm.primary_key.pk@ by {
            assert(kept.contains(kept[k]));
        }
        let mut p: usize = 0;
        while p < items.len() && !pos_before(
            &subm.topic_key.sk,
            &subm.primary_key.pk,
            &items[p].topic_key.sk,
            &items[p].primary_key.pk,
        )
            invariant
                items@ == kept,
                p <= kept.len(),
                forall|k: int| 0 <= k < p ==> !pos_less(position_of(subm), position_of(#[trigger] kept[k])),
            decreases kept.len() - p,
        {
            p += 1;
        }
        items.insert(p, subm);
        proof {
            let all = items@;
            let ps = position_of(subm);
            assert(all == kept.insert(p as int, subm));
            assert forall|k: int| 0 <= k < p implies pos_less(position_of(#[trigger] kept[k]), ps) by {
                assert(kept[k].primary_key.pk@ != subm.primary_key.pk@);
                lemma_pos_total(position_of(kept[k]), ps);
            }
            assert forall|k: int| p <= k < kept.len() implies pos_less(ps, position_of(#[trigger] kept[k])) by {
                if k > p {
                    assert(pos_less(position_of(kept[p as int]), position_of(kept[k])));
                    lemma_pos_transitive(ps, position_of(kept[p as int]), position_of(kept[k]));
                }
            }
            assert forall|a: int| 0 <= a < all.len() implies #[trigger] stored_ok(all[a]) by {
                if a < p {
                    assert(all[a] == kept[a]);
                } else if a > p {
                    assert(all[a] == kept[a - 1]);
                }
            }
            assert forall|a: int, b: int| 0 <= a < b < all.len() implies #[trigger] all[a].primary_key.pk@
                != #[trigger] all[b].primary_key.pk@ && pos_less(position_of(all[a]), position_of(all[b])) by {
                if b < p {
                    assert(all[a] == kept[a] && all[b] == kept[b]);
                } else if b == p {
                    assert(all[a] == kept[a]);
                } else if a < p {
                    assert(all[a] == kept[a] && all[b] == kept[b - 1]);
                    lemma_pos_transitive(position_of(kept[a]), ps, position_of(kept[b - 1]));
                } else if a == p {
                    assert(all[b] == kept[b - 1]);
                } else {
                    assert(all[a] == kept[a - 1] && all[b] == kept[b - 1]);
                }
            }
            assert forall|x: Submission| #[trigger] all.contains(x) <==> (x == subm || kept.contains(x)) by {
                if all.contains(x) {
                    let m = choose|m: int| 0 <= m < all.len() && all[m] == x;
                    if m < p {
                        assert(kept[m] == x);
                    } else if m > p {
                        assert(kept[m - 1] == x);
                    }
                }
                if kept.contains(x) {
                    let m = choose|m: int| 0 <= m < kept.len() && kept[m] == x;
                    if m < p {
                        assert(all[m] == x);
                    } else {
                        assert(all[m + 1] == x);
                    }
                }
                if x == subm {
                    assert(all[p as int] == x);
                }
            }
        }
        *self = MemoryTable { items };
        Ok(())
    }

    /// Answers a listing request as the store would on this snapshot.
    ///
    /// `BadRequest` for a page size that is not positive; `InvalidInputData`
    /// for a resume point that lacks a key attribute of the index. A resume
    /// point marks a position: the page starts at the first item past it.
    pub fn list_items_by_topic(&self, input: ListItemsByTopicInput) -> (r: Result<
        ListItemsByTopicOutput,
        Error,
    >)
        ensures
            (input.limit matches Some(l) && l <= 0) <==> r matches Err(Error::BadRequest(_)),
            r matches Err(e) ==> (e is BadRequest || e is InvalidInputData),
            !(input.limit matches Some(l) && l <= 0) ==> (r matches Err(Error::InvalidInputData(_)) <==> (
            input.start_cursor matches Some(c) && !has_index_keys(c@))),
            r matches Ok(out) ==> list_page(
                self@,
                input.topic@,
                ascending_of(input),
                limit_of(input),
                cursor_view(input.start_cursor),
            ) == Some((out.items@, cursor_view(out.next_cursor))),
    {
        proof { use_type_invariant(self); }
        let q = match plan_topic_query(&input) {
            Ok(q) => q,
            Err(e) => return Err(e),
        };
        let ghost t = self@;
        let ghost topic = input.topic@;
        let ghost items = scan_order(t, topic, q.ascending);
        proof { lemma_scan_sorted(t, topic, q.ascending); }
        let up = self.partition_positions(&q.partition, Ghost(input.topic@));
        let order = if q.ascending {
            up
        } else {
            let down = reversed(&up);
            assert(items_at(t, down@) =~= items_at(t, up@).reverse());
            down
        };
        assert(items_at(t, order@) == items);
        let n = order.len();
        let start: usize = match &q.exclusive_start {
            None => 0,
            Some(c) => {
                let sk = c.get(TOPIC_SK_NAME);
                let pk = c.get(PK_NAME);
                match (sk, pk) {
                    (Some(sk), Some(pk)) => {
                        proof {
                            crate::cursor::lemma_sorted_unique(c@);
                            let i1 = choose|i: int| 0 <= i < c@.len() && #[trigger] c@[i] == (TOPIC_SK_NAME@, sk@);
                            let i2 = choose|i: int| 0 <= i < c@.len() && #[trigger] c@[i] == (PK_NAME@, pk@);
                            lemma_value_of(c@, i1);
                            lemma_value_of(c@, i2);
                        }
                        self.first_past(&order, &sk, &pk, q.ascending)
                    },
                    _ => {
                        return Err(
                            Error::InvalidInputData(String::from_str("cursor lacks a key attribute of the index")),
                        );
                    },
                }
            },
        };
        assert(resume_index(items, cursor_view(input.start_cursor), q.ascending) == Some(start as int));
        let limit = q.limit as usize;
        let more = limit < n - start;
        let end = if more { start + limit } else { n };
        let mut page: Vec<Submission> = Vec::new();
        let mut k = start;
        while k < end
            invariant
                start <= k <= end <= n,
                n == order@.len(),
                items_at(t, order@) == items,
                t == self.items@,
                forall|i: int| 0 <= i < n ==> #[trigger] order@[i] < t.len(),
                page@ == items.subrange(start as int, k as int),
            decreases end - k,
        {
            let s = self.items[order[k]].clone();
            page.push(s);
            k += 1;
            assert(page@ =~= items.subrange(start as int, k as int));
        }
        let next = if more {
            let c = key_cursor(&self.items[order[end - 1]]);
            Some(c)
        } else {
            None
        };
        Ok(ListItemsByTopicOutput { items: page, next_cursor: next })
    }

    /// Positions of the submissions in topic partition `partition`, in table
    /// order.
    fn partition_positions(&self, partition: &String, topic: Ghost<Seq<char>>) -> (r: Vec<usize>)
        requires
            partition@ == topic_partition(topic@),
        ensures
            items_at(self@, r@) == topic_items(self@, topic@),
            forall|i: int| 0 <= i < r@.len() ==> #[trigger] r@[i] < self@.len(),
    {
        let ghost t = self@;
        let mut r: Vec<usize> = Vec::new();
        let mut i: usize = 0;
        while i < self.items.len()
            invariant
                t == self.items@,
                i <= t.len(),
                partition@ == topic_partition(topic@),
                items_at(t, r@) == topic_items(t.subrange(0, i as int), topic@),
                forall|k: int| 0 <= k < r@.len() ==> #[trigger] r@[k] < i,
            decreases t.len() - i,
        {
            proof {
                let pre = t.subrange(0, i as int + 1);
                assert(pre.drop_last() =~= t.subrange(0, i as int));
                assert(pre.last() == t[i as int]);
            }
            let ghost pre = t.subrange(0, i as int + 1);
            if self.items[i].topic_key.pk == *partition {
                let ghost before = r@;
                r.push(i);
                assert(items_at(t, r@) =~= items_at(t, before).push(t[i as int]));
                assert(topic_items(pre, topic@) == topic_items(t.subrange(0, i as int), topic@).push(t[i as int]));
            } else {
                assert(t[i as int].topic_key.pk@ != topic_partition(topic@));
                assert(topic_items(pre, topic@) == topic_items(t.subrange(0, i as int), topic@));
            }
            i += 1;
        }
        assert(t.subrange(0, i as int) =~= t);
        r
    }

    /// The first place in `order` of an item past position `(sk, pk)` in the
    /// scan direction.
    fn first_past(&self, order: &Vec<usize>, sk: &String, pk: &String, ascending: bool) -> (r: usize)
        requires
            forall|i: int| 0 <= i < order@.len() ==> #[trigger] order@[i] < self@.len(),
        ensures
            r == first_after(items_at(self@, order@), (sk@, pk@), ascending, 0),
            r <= order@.len(),
    {
        let ghost items = items_at(self@, order@);
        let mut k: usize = 0;
        while k < order.len()
            invariant
                k <= order@.len(),
                items == items_at(self@, order@),
                forall|i: int| 0 <= i < order@.len() ==> #[trigger] order@[i] < self@.len(),
                first_after(items, (sk@, pk@), ascending, 0) == first_after(items, (sk@, pk@), ascending, k as int),
            decreases order@.len() - k,
        {
            let it = &self.items[order[k]];
            assert(*it == items[k as int]);
            let past = if ascending {
                pos_before(sk, pk, &it.topic_key.sk, &it.primary_key.pk)
            } else {
                pos_before(&it.topic_key.sk, &it.primary_key.pk, sk, pk)
            };
            if past {
                return k;
            }
            k += 1;
        }
        k
    }
}

/// Whether `(a_sk, a_pk)` comes strictly before `(b_sk, b_pk)`.
fn pos_before(a_sk: &String, a_pk: &String, b_sk: &String, b_pk: &String) -> (r: bool)
    ensures
        r == pos_less((a_sk@, a_pk@), (b_sk@, b_pk@)),
{
    str_precedes(a_sk.as_str(), b_sk.as_str()) || (*a_sk == *b_sk && str_precedes(a_pk.as_str(), b_pk.as_str()))
}

/// Whether `s` has the keys its attributes give, and a sortable score and
/// creation time.
fn stored_consistent(s: &Submission) -> (r: bool)
    ensures
        r == stored_ok(*s),
{
    if s.ranking_score < 0 || s.ranking_score > crate::keys::MAX_SORTABLE || s.created_at.secs < 0
        || s.created_at.secs > crate::keys::MAX_SORTABLE {
        return false;
    }
    match s.entity_type {
        crate::entity::EntityType::Submission => {},
        _ => return false,
    }
    let p = crate::submission::PrimaryKey::new(&s.id);
    let tk = crate::submission::TopicIndexKey::new(s.topic.as_str(), &s.ranking_score);
    let ak = crate::submission::AuthorIndexKey::new(s.author_id.as_str(), &s.created_at);
    p.pk == s.primary_key.pk && p.sk == s.primary_key.sk && tk.pk == s.topic_key.pk && tk.sk == s.topic_key.sk
        && ak.pk == s.author_key.pk && ak.sk == s.author_key.sk
}

fn reversed(v: &Vec<usize>) -> (r: Vec<usize>)
    ensures
        r@ == v@.reverse(),
        forall|i: int| 0 <= i < v@.len() ==> #[trigger] r@[i] == v@[v@.len() - 1 - i],
{
    let n = v.len();
    let mut r: Vec<usize> = Vec::new();
    while r.len() < n
        invariant
            n == v@.len(),
            r@.len() <= n,
            forall|i: int| 0 <= i < r@.len() ==> #[trigger] r@[i] == v@[n - 1 - i],
        decreases n - r@.len(),
    {
        r.push(v[n - 1 - r.len()]);
    }
    assert(r@ =~= v@.reverse());
    r
}

/// The resume point just after `s`.
fn key_cursor(s: &Submission) -> (r: Cursor)
    ensures
        r@ == key_attrs(*s),
{
    proof { lemma_key_names(); }
    let mut c = Cursor::new();
    c.insert(String::from_str(TOPIC_PK_NAME), s.topic_key.pk.clone());
    c.insert(String::from_str(TOPIC_SK_NAME), s.topic_key.sk.clone());
    proof { lemma_precedes_transitive(TOPIC_PK_NAME@, TOPIC_SK_NAME@, PK_NAME@); }
    c.insert(String::from_str(PK_NAME), s.primary_key.pk.clone());
    proof {
        lemma_precedes_transitive(TOPIC_SK_NAME@, PK_NAME@, SK_NAME@);
        lemma_precedes_transitive(TOPIC_PK_NAME@, PK_NAME@, SK_NAME@);
    }
    c.insert(String::from_str(SK_NAME), s.primary_key.sk.clone());
    assert(c@ =~= key_attrs(*s));
    c
}

} // verus!
