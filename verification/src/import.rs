//! Taking in phrases from a file: what is refused, and what is put right.

use crate::storage::{
    Group, GroupView, Phrase, PhraseData, PhraseView, MAX_GROUPS, MAX_IMPORT_BYTES,
    MAX_PHRASES_PER_GROUP, MAX_TEXT_CHARS,
};
use crate::text::{blank, in_decimal, trim};
use vstd::hash_set::StringHashSet;
use vstd::prelude::*;
use vstd::string::StrSliceExecFns;
use vstd::string::StringExecFns;

verus! {

/// The ids given out so far, and the number of the last one made up.
#[verifier::ext_equal]
pub struct PoolView {
    pub ids: Set<Seq<char>>,
    pub n: nat,
}

/// The id made up from the number `m`.
pub open spec fn made_up(prefix: Seq<char>, m: nat) -> Seq<char> {
    prefix + crate::text::decimal(m)
}

impl PoolView {
    /// Nothing given out, nothing made up.
    pub open spec fn start() -> PoolView {
        PoolView { ids: Set::empty(), n: 0 }
    }

    /// An id may stay as it is: it is not blank, and nothing has it yet.
    pub open spec fn may_keep(self, id: Seq<char>) -> bool {
        !crate::text::is_blank(id) && !self.ids.contains(id)
    }

    /// `m` is the first number after the last used one whose id is free.
    pub open spec fn is_next_free(self, prefix: Seq<char>, m: nat) -> bool {
        &&& m > self.n
        &&& !self.ids.contains(made_up(prefix, m))
        &&& forall|k: nat| self.n < k < m ==> self.ids.contains(#[trigger] made_up(prefix, k))
    }

    /// That number.
    pub open spec fn next_free(self, prefix: Seq<char>) -> nat {
        choose|m: nat| self.is_next_free(prefix, m)
    }

    /// The id that something comes out with that came with `id`.
    pub open spec fn repaired(self, prefix: Seq<char>, id: Seq<char>) -> Seq<char> {
        if self.may_keep(id) {
            id
        } else {
            made_up(prefix, self.next_free(prefix))
        }
    }

    /// The pool once that id is given out.
    pub open spec fn after(self, prefix: Seq<char>, id: Seq<char>) -> PoolView {
        PoolView {
            ids: self.ids.insert(self.repaired(prefix, id)),
            n: if self.may_keep(id) {
                self.n
            } else {
                self.next_free(prefix)
            },
        }
    }
}

/// Made-up ids of groups start with this.
pub open spec fn group_prefix() -> Seq<char> {
    "g-imp"@
}

/// Made-up ids of phrases start with this.
pub open spec fn phrase_prefix() -> Seq<char> {
    "p-imp"@
}

proof fn lemma_made_up_distinct(prefix: Seq<char>, a: nat, b: nat)
    requires
        made_up(prefix, a) == made_up(prefix, b),
    ensures
        a == b,
{
    let p = prefix.len() as int;
    let x = made_up(prefix, a);
    let y = made_up(prefix, b);
    assert(x.subrange(p, x.len() as int) =~= crate::text::decimal(a));
    assert(y.subrange(p, y.len() as int) =~= crate::text::decimal(b));
    crate::text::numerals_are_distinct(a, b, 10);
}

proof fn lemma_prefixes_differ(a: nat, b: nat)
    ensures
        made_up(group_prefix(), a) != made_up(phrase_prefix(), b),
{
    reveal_strlit("g-imp");
    reveal_strlit("p-imp");
    assert(made_up(group_prefix(), a)[0] == 'g');
    assert(made_up(phrase_prefix(), b)[0] == 'p');
}

/// Every number used so far has its id given out, to a group or to a phrase.
spec fn covered(ids: Set<Seq<char>>, n: nat) -> bool {
    forall|m: nat|
        1 <= m <= n ==> ids.contains(#[trigger] made_up(group_prefix(), m)) || ids.contains(
            made_up(phrase_prefix(), m),
        )
}

/// So there are no more numbers used than ids given out.
proof fn lemma_covered_bound(ids: Set<Seq<char>>, n: nat)
    requires
        ids.finite(),
        covered(ids, n),
    ensures
        n <= ids.len(),
    decreases n,
{
    if n > 0 {
        let g = made_up(group_prefix(), n);
        let x = if ids.contains(g) {
            g
        } else {
            made_up(phrase_prefix(), n)
        };
        assert(ids.contains(x));
        let rest = ids.remove(x);
        assert forall|m: nat| 1 <= m <= n - 1 implies rest.contains(
            #[trigger] made_up(group_prefix(), m),
        ) || rest.contains(made_up(phrase_prefix(), m)) by {
            if ids.contains(made_up(group_prefix(), m)) {
                if made_up(group_prefix(), m) == x {
                    if x == g {
                        lemma_made_up_distinct(group_prefix(), m, n);
                    } else {
                        lemma_prefixes_differ(m, n);
                    }
                }
            } else if made_up(phrase_prefix(), m) == x {
                if x == g {
                    lemma_prefixes_differ(n, m);
                } else {
                    lemma_made_up_distinct(phrase_prefix(), m, n);
                }
            }
        }
        lemma_covered_bound(rest, (n - 1) as nat);
    }
}

proof fn lemma_run_bound(ids: Set<Seq<char>>, prefix: Seq<char>, lo: nat, hi: nat)
    requires
        ids.finite(),
        lo < hi,
        forall|k: nat| lo < k < hi ==> ids.contains(#[trigger] made_up(prefix, k)),
    ensures
        hi - lo - 1 <= ids.len(),
    decreases hi - lo,
{
    if hi - lo > 1 {
        let x = made_up(prefix, (hi - 1) as nat);
        let rest = ids.remove(x);
        assert forall|k: nat| lo < k < hi - 1 implies rest.contains(#[trigger] made_up(prefix, k)) by {
            if made_up(prefix, k) == x {
                lemma_made_up_distinct(prefix, k, (hi - 1) as nat);
            }
        }
        lemma_run_bound(rest, prefix, lo, (hi - 1) as nat);
    }
}

proof fn lemma_search_free(pool: PoolView, prefix: Seq<char>, from: nat)
    requires
        pool.ids.finite(),
        from > pool.n,
        forall|k: nat| pool.n < k < from ==> pool.ids.contains(#[trigger] made_up(prefix, k)),
    ensures
        exists|m: nat| pool.is_next_free(prefix, m),
    decreases pool.ids.len() + pool.n + 1 - from,
{
    if pool.ids.contains(made_up(prefix, from)) {
        lemma_run_bound(pool.ids, prefix, pool.n, from + 1);
        lemma_search_free(pool, prefix, from + 1);
    } else {
        assert(pool.is_next_free(prefix, from));
    }
}

/// There is always a free number.
proof fn lemma_next_free(pool: PoolView, prefix: Seq<char>)
    requires
        pool.ids.finite(),
    ensures
        pool.is_next_free(prefix, pool.next_free(prefix)),
{
    lemma_search_free(pool, prefix, pool.n + 1);
}

proof fn lemma_next_free_unique(pool: PoolView, prefix: Seq<char>, a: nat, b: nat)
    requires
        pool.is_next_free(prefix, a),
        pool.is_next_free(prefix, b),
    ensures
        a == b,
{
    if a < b {
        assert(pool.ids.contains(made_up(prefix, a)));
    }
    if b < a {
        assert(pool.ids.contains(made_up(prefix, b)));
    }
}

/// Gives out ids that differ from each other.
struct Pool {
    ids: StringHashSet,
    n: usize,
}

impl View for Pool {
    type V = PoolView;

    closed spec fn view(&self) -> PoolView {
        PoolView { ids: self.ids@, n: self.n as nat }
    }
}

impl Pool {
    spec fn well_formed(&self) -> bool {
        self@.ids.finite() && covered(self@.ids, self@.n)
    }

    fn new() -> (r: Self)
        ensures
            r@ == PoolView::start(),
            r.well_formed(),
    {
        Pool { ids: StringHashSet::new(), n: 0 }
    }

    /// Gives out `id` where it may stay, else the next made-up one.
    fn give(&mut self, prefix: &str, id: &mut String)
        requires
            old(self).well_formed(),
            old(self)@.ids.len() < usize::MAX,
            prefix@ == group_prefix() || prefix@ == phrase_prefix(),
        ensures
            final(self).well_formed(),
            final(id)@ == old(self)@.repaired(prefix@, old(id)@),
            final(self)@ == old(self)@.after(prefix@, old(id)@),
    {
        let ghost pool = self@;
        if !blank(id.as_str()) {
            let new = self.ids.insert(id.clone());
            if new {
                return;
            }
            assert(self@.ids =~= pool.ids);
        }
        assert(!pool.may_keep(id@));
        loop
            invariant
                pool == old(self)@,
                self@.ids == pool.ids,
                self.well_formed(),
                pool.ids.len() < usize::MAX,
                pool.n <= self@.n,
                !pool.may_keep(old(id)@),
                prefix@ == group_prefix() || prefix@ == phrase_prefix(),
                forall|k: nat|
                    pool.n < k <= self@.n ==> pool.ids.contains(#[trigger] made_up(prefix@, k)),
            decreases usize::MAX - self.n,
        {
            proof {
                lemma_covered_bound(self@.ids, self@.n);
            }
            self.n = self.n + 1;
            let mut made = prefix.to_owned();
            made.append(in_decimal(self.n as u128).as_str());
            assert(made@ == made_up(prefix@, self.n as nat));
            let new = self.ids.insert(made.clone());
            if new {
                proof {
                    assert(pool.is_next_free(prefix@, self.n as nat));
                    lemma_next_free(pool, prefix@);
                    lemma_next_free_unique(pool, prefix@, self.n as nat, pool.next_free(prefix@));
                }
                *id = made;
                return;
            }
            assert(self@.ids =~= pool.ids);
        }
    }
}

/// Why data is refused.
pub enum Fault {
    /// More groups than the data may hold.
    TooManyGroups { count: nat },
    /// More phrases than a group may hold.
    TooManyPhrases { name: Seq<char>, count: nat },
    /// More characters than a phrase may hold.
    TextTooLong { chars: nat },
}

impl Fault {
    /// What the user is told.
    pub open spec fn message(self) -> Seq<char> {
        match self {
            Fault::TooManyGroups { count } => "分组过多("@ + crate::text::decimal(count) + ",上限 "@
                + crate::text::decimal(MAX_GROUPS as nat) + ")"@,
            Fault::TooManyPhrases { name, count } => "分组「"@ + name + "」短语过多("@
                + crate::text::decimal(count) + ",上限 "@ + crate::text::decimal(
                MAX_PHRASES_PER_GROUP as nat,
            ) + ")"@,
            Fault::TextTooLong { chars } => "存在超长短语("@ + crate::text::decimal(chars)
                + " 字,上限 "@ + crate::text::decimal(MAX_TEXT_CHARS as nat) + ")"@,
        }
    }
}

/// The name of a group that came without one.
pub open spec fn unnamed() -> Seq<char> {
    "未命名"@
}

/// The name that a group comes out with.
pub open spec fn repaired_name(name: Seq<char>) -> Seq<char> {
    if crate::text::is_blank(name) {
        unnamed()
    } else {
        crate::text::trimmed(name)
    }
}

/// The length of the first text that is too long, if there is one.
pub open spec fn first_too_long(phrases: Seq<PhraseView>) -> Option<nat>
    decreases phrases.len(),
{
    if phrases.len() == 0 {
        None
    } else {
        match first_too_long(phrases.drop_last()) {
            Some(n) => Some(n),
            None => if phrases.last().text.len() > MAX_TEXT_CHARS {
                Some(phrases.last().text.len())
            } else {
                None
            },
        }
    }
}

/// The phrases that say something, in their order.
pub open spec fn worded(phrases: Seq<PhraseView>) -> Seq<PhraseView> {
    phrases.filter(|p: PhraseView| !crate::text::is_blank(p.text))
}

/// Phrases with the ids that the pool gives out to them one after the other.
pub open spec fn with_ids(phrases: Seq<PhraseView>, pool: PoolView) -> Seq<PhraseView>
    decreases phrases.len(),
{
    if phrases.len() == 0 {
        phrases
    } else {
        let before = phrases.drop_last();
        let p = phrases.last();
        with_ids(before, pool).push(
            PhraseView { id: pool_after(before, pool).repaired(phrase_prefix(), p.id), ..p },
        )
    }
}

/// The pool after that.
pub open spec fn pool_after(phrases: Seq<PhraseView>, pool: PoolView) -> PoolView
    decreases phrases.len(),
{
    if phrases.len() == 0 {
        pool
    } else {
        pool_after(phrases.drop_last(), pool).after(phrase_prefix(), phrases.last().id)
    }
}

/// What becomes of one group.
pub struct GroupOutcome {
    pub group: GroupView,
    pub pool: PoolView,
    pub fault: Option<Fault>,
}

/// What becomes of one group: its name and its id are put right first; if it
/// is then refused, its phrases stay as they were, else the blank ones go and
/// the others get ids of their own.
pub open spec fn sanitized_group(g: GroupView, pool: PoolView) -> GroupOutcome {
    let named = GroupView {
        name: repaired_name(g.name),
        id: pool.repaired(group_prefix(), g.id),
        ..g
    };
    let pool = pool.after(group_prefix(), g.id);
    if g.phrases.len() > MAX_PHRASES_PER_GROUP {
        GroupOutcome {
            group: named,
            pool,
            fault: Some(Fault::TooManyPhrases { name: named.name, count: g.phrases.len() }),
        }
    } else if first_too_long(g.phrases) is Some {
        GroupOutcome {
            group: named,
            pool,
            fault: Some(Fault::TextTooLong { chars: first_too_long(g.phrases)->0 }),
        }
    } else {
        GroupOutcome {
            group: GroupView { phrases: with_ids(worded(g.phrases), pool), ..named },
            pool: pool_after(worded(g.phrases), pool),
            fault: None,
        }
    }
}

/// What becomes of all the groups.
pub struct Outcome {
    pub groups: Seq<GroupView>,
    pub pool: PoolView,
    pub fault: Option<Fault>,
}

/// What becomes of groups taken in order, up to the first that is refused.
/// Those after it stay as they were.
pub open spec fn sanitized_groups(groups: Seq<GroupView>) -> Outcome
    decreases groups.len(),
{
    if groups.len() == 0 {
        Outcome { groups, pool: PoolView::start(), fault: None }
    } else {
        let before = sanitized_groups(groups.drop_last());
        if before.fault is Some {
            Outcome { groups: before.groups.push(groups.last()), ..before }
        } else {
            let g = sanitized_group(groups.last(), before.pool);
            Outcome { groups: before.groups.push(g.group), pool: g.pool, fault: g.fault }
        }
    }
}

/// What becomes of data that is taken in. Data with too many groups is refused
/// as it is.
pub open spec fn sanitized(groups: Seq<GroupView>) -> Outcome {
    if groups.len() > MAX_GROUPS {
        Outcome {
            groups,
            pool: PoolView::start(),
            fault: Some(Fault::TooManyGroups { count: groups.len() }),
        }
    } else {
        sanitized_groups(groups)
    }
}

proof fn lemma_pool_after_finite(phrases: Seq<PhraseView>, pool: PoolView)
    requires
        pool.ids.finite(),
    ensures
        pool_after(phrases, pool).ids.finite(),
        pool_after(phrases, pool).ids.len() <= pool.ids.len() + phrases.len(),
    decreases phrases.len(),
{
    if phrases.len() > 0 {
        lemma_pool_after_finite(phrases.drop_last(), pool);
    }
}

/// The length of the first text that is too long, if there is one.
fn find_too_long(phrases: &Vec<Phrase>) -> (r: Option<usize>)
    ensures
        match r {
            Some(n) => first_too_long(crate::storage::phrases_view(phrases@)) == Some(n as nat),
            None => first_too_long(crate::storage::phrases_view(phrases@)) is None,
        },
{
    let ghost all = crate::storage::phrases_view(phrases@);
    let mut i: usize = 0;
    while i < phrases.len()
        invariant
            all == crate::storage::phrases_view(phrases@),
            i <= phrases.len(),
            first_too_long(all.take(i as int)) is None,
        decreases phrases.len() - i,
    {
        let n: usize = phrases[i].text.as_str().unicode_len();
        assert(all.take(i + 1).drop_last() =~= all.take(i as int));
        assert(all.take(i + 1).last() == phrases[i as int]@);
        if n > MAX_TEXT_CHARS {
            proof {
                lemma_first_stays_first(all, i + 1);
            }
            return Some(n);
        }
        i = i + 1;
    }
    assert(all.take(i as int) =~= all);
    None
}

/// What comes later does not change which text is the first too long one.
proof fn lemma_first_stays_first(phrases: Seq<PhraseView>, i: int)
    requires
        0 <= i <= phrases.len(),
        first_too_long(phrases.take(i)) is Some,
    ensures
        first_too_long(phrases) == first_too_long(phrases.take(i)),
    decreases phrases.len(),
{
    if i == phrases.len() {
        assert(phrases.take(i) =~= phrases);
    } else {
        assert(phrases.drop_last().take(i) =~= phrases.take(i));
        lemma_first_stays_first(phrases.drop_last(), i);
    }
}

/// The phrases that say something, with ids of their own.
fn repair_phrases(phrases: Vec<Phrase>, pool: &mut Pool) -> (r: Vec<Phrase>)
    requires
        old(pool).well_formed(),
        old(pool)@.ids.len() + phrases@.len() < usize::MAX,
    ensures
        final(pool).well_formed(),
        crate::storage::phrases_view(r@) == with_ids(
            worded(crate::storage::phrases_view(phrases@)),
            old(pool)@,
        ),
        final(pool)@ == pool_after(
            worded(crate::storage::phrases_view(phrases@)),
            old(pool)@,
        ),
        final(pool)@.ids.len() <= old(pool)@.ids.len() + phrases@.len(),
{
    let ghost all = crate::storage::phrases_view(phrases@);
    let ghost given = phrases@;
    let ghost start = pool@;
    let ghost says = |p: PhraseView| !crate::text::is_blank(p.text);
    let mut out: Vec<Phrase> = Vec::new();
    for p in it: phrases
        invariant
            it.seq() == given,
            all == crate::storage::phrases_view(given),
            says == (|p: PhraseView| !crate::text::is_blank(p.text)),
            start.ids.len() + given.len() < usize::MAX,
            pool.well_formed(),
            start.ids.finite(),
            crate::storage::phrases_view(out@) == with_ids(
                worded(all.take(it.index() as int)),
                start,
            ),
            pool@ == pool_after(worded(all.take(it.index() as int)), start),
            pool@.ids.len() <= start.ids.len() + it.index(),
    {
        let ghost i = it.index() as int;
        let ghost seen = all.take(i + 1);
        let mut p = p;
        assert(p@ == all[i]);
        proof {
            assert(seen.drop_last() =~= all.take(i));
            assert(seen.last() == p@);
            reveal_with_fuel(Seq::<_>::filter, 1);
        }
        let ghost before = worded(all.take(i));
        let ghost came = p@;
        let ghost out_before = crate::storage::phrases_view(out@);
        if !blank(p.text.as_str()) {
            assert(worded(seen) =~= before.push(came));
            assert(worded(seen).drop_last() =~= before);
            pool.give("p-imp", &mut p.id);
            out.push(p);
            assert(crate::storage::phrases_view(out@) =~= out_before.push(p@));
        } else {
            assert(worded(seen) =~= before);
        }
    }
    assert(all.take(all.len() as int) =~= all);
    out
}

/// The text that tells of too many groups.
fn too_many_groups(count: usize) -> (r: String)
    ensures
        r@ == (Fault::TooManyGroups { count: count as nat }).message(),
{
    let mut m = "分组过多(".to_owned();
    m.append(in_decimal(count as u128).as_str());
    m.append(",上限 ");
    m.append(in_decimal(MAX_GROUPS as u128).as_str());
    m.append(")");
    m
}

/// The text that tells of too many phrases in a group.
fn too_many_phrases(name: &str, count: usize) -> (r: String)
    ensures
        r@ == (Fault::TooManyPhrases { name: name@, count: count as nat }).message(),
{
    let mut m = "分组「".to_owned();
    m.append(name);
    m.append("」短语过多(");
    m.append(in_decimal(count as u128).as_str());
    m.append(",上限 ");
    m.append(in_decimal(MAX_PHRASES_PER_GROUP as u128).as_str());
    m.append(")");
    m
}

/// The text that tells of a phrase that is too long.
fn text_too_long(chars: usize) -> (r: String)
    ensures
        r@ == (Fault::TextTooLong { chars: chars as nat }).message(),
{
    let mut m = "存在超长短语(".to_owned();
    m.append(in_decimal(chars as u128).as_str());
    m.append(" 字,上限 ");
    m.append(in_decimal(MAX_TEXT_CHARS as u128).as_str());
    m.append(")");
    m
}

/// Puts one group right, or says why it is refused.
fn sanitize_group(g: &mut Group, pool: &mut Pool) -> (r: Result<(), String>)
    requires
        old(pool).well_formed(),
        old(pool)@.ids.len() + MAX_PHRASES_PER_GROUP + 1 < usize::MAX,
    ensures
        final(pool).well_formed(),
        final(g)@ == sanitized_group(old(g)@, old(pool)@).group,
        final(pool)@ == sanitized_group(old(g)@, old(pool)@).pool,
        match (r, sanitized_group(old(g)@, old(pool)@).fault) {
            (Ok(_), None) => true,
            (Err(m), Some(f)) => m@ == f.message(),
            _ => false,
        },
        final(pool)@.ids.len() <= old(pool)@.ids.len() + MAX_PHRASES_PER_GROUP + 1,
{
    let ghost was = g@;
    let ghost start = pool@;
    proof {
        crate::text::lemma_trimmed(g.name@);
    }
    let name = trim(g.name.as_str());
    let name = if name.is_empty() {
        "未命名".to_owned()
    } else {
        name.to_owned()
    };
    g.name = name;
    pool.give("g-imp", &mut g.id);
    assert(g@.phrases == was.phrases);
    if g.phrases.len() > MAX_PHRASES_PER_GROUP {
        return Err(too_many_phrases(g.name.as_str(), g.phrases.len()));
    }
    if let Some(n) = find_too_long(&g.phrases) {
        return Err(text_too_long(n));
    }
    let mut phrases: Vec<Phrase> = Vec::new();
    std::mem::swap(&mut phrases, &mut g.phrases);
    g.phrases = repair_phrases(phrases, pool);
    Ok(())
}

/// Checks data to be taken in and puts right what can be: names are trimmed
/// and blank ones replaced, blank phrases dropped, and ids that are blank or
/// already taken replaced. Refuses data that is too large in any way.
pub fn sanitize_import(data: &mut PhraseData) -> (r: Result<(), String>)
    ensures
        final(data)@ == sanitized(old(data)@).groups,
        match (r, sanitized(old(data)@).fault) {
            (Ok(_), None) => true,
            (Err(m), Some(f)) => m@ == f.message(),
            _ => false,
        },
{
    if data.groups.len() > MAX_GROUPS {
        return Err(too_many_groups(data.groups.len()));
    }
    let ghost all = data@;
    let mut pool = Pool::new();
    let mut i: usize = 0;
    assert(all.take(0) =~= Seq::<GroupView>::empty());
    while i < data.groups.len()
        invariant
            i <= data.groups@.len(),
            data.groups@.len() == all.len(),
            all.len() <= MAX_GROUPS,
            all == old(data)@,
            pool.well_formed(),
            // One id for each group, and one for each of its phrases.
            pool@.ids.len() <= i * 5001,
            sanitized_groups(all.take(i as int)).fault is None,
            sanitized_groups(all.take(i as int)).pool == pool@,
            data@.take(i as int) == sanitized_groups(all.take(i as int)).groups,
            data@.skip(i as int) == all.skip(i as int),
        decreases data.groups.len() - i,
    {
        let ghost before = data@;
        assert(all.take(i + 1).drop_last() =~= all.take(i as int));
        assert(all.take(i + 1).last() == all[i as int]);
        assert(all[i as int] == all.skip(i as int)[0]);
        assert(data@.skip(i as int)[0] == data.groups@[i as int]@);
        let result = sanitize_group(&mut data.groups[i], &mut pool);
        proof {
            assert forall|k: int| 0 <= k < all.len() && k != i implies data@[k] == before[k] by {}
            assert(data@.take(i as int) =~= before.take(i as int));
            assert(data@.take(i + 1) =~= data@.take(i as int).push(data@[i as int]));
            assert(before.skip(i + 1) =~= before.skip(i as int).skip(1));
            assert(all.skip(i + 1) =~= all.skip(i as int).skip(1));
            assert(data@.skip(i + 1) =~= before.skip(i + 1));
        }
        if let Err(m) = result {
            proof {
                lemma_rest_untouched(all, i + 1);
                assert(data@ =~= data@.take(i + 1) + data@.skip(i + 1));
            }
            return Err(m);
        }
        i = i + 1;
    }
    assert(all.take(i as int) =~= all);
    assert(data@.take(i as int) =~= data@);
    Ok(())
}

/// Nothing after a group that is refused is changed.
proof fn lemma_rest_untouched(groups: Seq<GroupView>, i: int)
    requires
        0 <= i <= groups.len(),
        sanitized_groups(groups.take(i)).fault is Some,
    ensures
        sanitized_groups(groups).groups == sanitized_groups(groups.take(i)).groups + groups.skip(i),
        sanitized_groups(groups).fault == sanitized_groups(groups.take(i)).fault,
    decreases groups.len(),
{
    if i == groups.len() {
        assert(groups.take(i) =~= groups);
        assert(sanitized_groups(groups).groups + groups.skip(i) =~= sanitized_groups(groups).groups);
    } else {
        let before = groups.drop_last();
        assert(before.take(i) =~= groups.take(i));
        lemma_rest_untouched(before, i);
        assert((sanitized_groups(groups.take(i)).groups + before.skip(i)).push(groups.last())
            =~= sanitized_groups(groups.take(i)).groups + groups.skip(i));
    }
}

/// The ids of phrases, in order.
spec fn phrase_ids(phrases: Seq<PhraseView>) -> Seq<Seq<char>> {
    phrases.map_values(|p: PhraseView| p.id)
}

/// The ids of groups and of what they hold, in order.
spec fn ids_of(groups: Seq<GroupView>) -> Seq<Seq<char>>
    decreases groups.len(),
{
    if groups.len() == 0 {
        Seq::empty()
    } else {
        ids_of(groups.drop_last()).push(groups.last().id) + phrase_ids(groups.last().phrases)
    }
}

/// A phrase that may be taken in as it is, but for its id.
pub open spec fn clean_phrase(p: PhraseView) -> bool {
    !crate::text::is_blank(p.text) && p.text.len() <= MAX_TEXT_CHARS
}

/// A group that may be taken in as it is, but for the ids.
pub open spec fn clean_group(g: GroupView) -> bool {
    &&& g.name.len() > 0
    &&& crate::text::trimmed(g.name) == g.name
    &&& g.phrases.len() <= MAX_PHRASES_PER_GROUP
    &&& forall|i: int| 0 <= i < g.phrases.len() ==> clean_phrase(#[trigger] g.phrases[i])
}

/// There is something that has an id there: the group at `gi`, if `pi` is -1,
/// or its phrase at `pi`.
pub open spec fn is_place(groups: Seq<GroupView>, gi: int, pi: int) -> bool {
    0 <= gi < groups.len() && -1 <= pi < groups[gi].phrases.len()
}

/// The id it has.
pub open spec fn id_at(groups: Seq<GroupView>, gi: int, pi: int) -> Seq<char> {
    if pi == -1 {
        groups[gi].id
    } else {
        groups[gi].phrases[pi].id
    }
}

/// Nothing has the id of something else, whether among groups or among phrases,
/// and none of the ids is blank.
pub open spec fn ids_tell_apart(groups: Seq<GroupView>) -> bool {
    &&& forall|gi: int, pi: int, gj: int, pj: int|
        #![trigger id_at(groups, gi, pi), id_at(groups, gj, pj)]
        is_place(groups, gi, pi) && is_place(groups, gj, pj) && id_at(groups, gi, pi) == id_at(
            groups,
            gj,
            pj,
        ) ==> gi == gj && pi == pj
    &&& forall|gi: int, pi: int|
        is_place(groups, gi, pi) ==> !crate::text::is_blank(#[trigger] id_at(groups, gi, pi))
}

/// Data that may be taken in as it is: every name and every text says
/// something, nothing is too large, and the ids tell everything apart.
pub open spec fn clean(groups: Seq<GroupView>) -> bool {
    &&& groups.len() <= MAX_GROUPS
    &&& forall|i: int| 0 <= i < groups.len() ==> clean_group(#[trigger] groups[i])
    &&& ids_tell_apart(groups)
}

/// Where the id of something stands among all the ids.
spec fn index_of(groups: Seq<GroupView>, gi: int, pi: int) -> int {
    ids_of(groups.take(gi)).len() + 1 + pi
}

proof fn lemma_index(groups: Seq<GroupView>, gi: int, pi: int)
    requires
        is_place(groups, gi, pi),
    ensures
        0 <= index_of(groups, gi, pi) < ids_of(groups).len(),
        ids_of(groups)[index_of(groups, gi, pi)] == id_at(groups, gi, pi),
    decreases groups.len(),
{
    let before = groups.drop_last();
    if gi < before.len() {
        lemma_index(before, gi, pi);
        assert(before.take(gi) =~= groups.take(gi));
    } else {
        assert(groups.take(gi) =~= before);
    }
}

proof fn lemma_place_of(groups: Seq<GroupView>, i: int) -> (r: (int, int))
    requires
        0 <= i < ids_of(groups).len(),
    ensures
        is_place(groups, r.0, r.1),
        index_of(groups, r.0, r.1) == i,
    decreases groups.len(),
{
    let before = groups.drop_last();
    if i < ids_of(before).len() {
        let (gi, pi) = lemma_place_of(before, i);
        assert(before.take(gi) =~= groups.take(gi));
        (gi, pi)
    } else {
        assert(groups.take(groups.len() - 1) =~= before);
        (groups.len() - 1, i - ids_of(before).len() - 1)
    }
}

proof fn lemma_ids_grow(groups: Seq<GroupView>, a: int, b: int)
    requires
        0 <= a < b <= groups.len(),
    ensures
        ids_of(groups.take(a)).len() + 1 + groups[a].phrases.len() <= ids_of(groups.take(b)).len(),
    decreases b,
{
    assert(groups.take(b).drop_last() =~= groups.take(b - 1));
    assert(groups.take(b).last() == groups[b - 1]);
    if a < b - 1 {
        lemma_ids_grow(groups, a, b - 1);
    }
}

/// The ids tell things apart exactly when none is blank and none occurs twice
/// in the list of them all.
proof fn lemma_ids_tell_apart(groups: Seq<GroupView>)
    ensures
        ids_tell_apart(groups) <==> {
            &&& ids_of(groups).no_duplicates()
            &&& forall|i: int|
                0 <= i < ids_of(groups).len() ==> !crate::text::is_blank(
                    #[trigger] ids_of(groups)[i],
                )
        },
{
    let ids = ids_of(groups);
    if ids_tell_apart(groups) {
        assert forall|i: int, j: int| 0 <= i < ids.len() && 0 <= j < ids.len() && i != j implies
            ids[i] != ids[j] by {
            let (gi, pi) = lemma_place_of(groups, i);
            let (gj, pj) = lemma_place_of(groups, j);
            lemma_index(groups, gi, pi);
            lemma_index(groups, gj, pj);
        }
        assert forall|i: int| 0 <= i < ids.len() implies !crate::text::is_blank(
            #[trigger] ids[i],
        ) by {
            let (gi, pi) = lemma_place_of(groups, i);
            lemma_index(groups, gi, pi);
        }
    }
    if ids.no_duplicates() && forall|i: int|
        0 <= i < ids.len() ==> !crate::text::is_blank(#[trigger] ids[i]) {
        assert forall|gi: int, pi: int| is_place(groups, gi, pi) implies !crate::text::is_blank(
            #[trigger] id_at(groups, gi, pi),
        ) by {
            lemma_index(groups, gi, pi);
        }
        assert forall|gi: int, pi: int, gj: int, pj: int|
            #![trigger id_at(groups, gi, pi), id_at(groups, gj, pj)]
            is_place(groups, gi, pi) && is_place(groups, gj, pj) && id_at(groups, gi, pi) == id_at(
                groups,
                gj,
                pj,
            ) implies gi == gj && pi == pj by {
            lemma_index(groups, gi, pi);
            lemma_index(groups, gj, pj);
            assert(index_of(groups, gi, pi) == index_of(groups, gj, pj));
            if gi < gj {
                lemma_ids_grow(groups, gi, gj);
            }
            if gj < gi {
                lemma_ids_grow(groups, gj, gi);
            }
        }
    }
}

/// The pool has given out these ids and no others.
spec fn issued(ids: Seq<Seq<char>>, pool: PoolView) -> bool {
    &&& pool.ids.finite()
    &&& ids.no_duplicates()
    &&& forall|x: Seq<char>| #[trigger] pool.ids.contains(x) <==> ids.contains(x)
    &&& forall|i: int| 0 <= i < ids.len() ==> !crate::text::is_blank(#[trigger] ids[i])
}

proof fn lemma_made_up_not_blank(prefix: Seq<char>, m: nat)
    requires
        prefix == group_prefix() || prefix == phrase_prefix(),
    ensures
        !crate::text::is_blank(made_up(prefix, m)),
{
    reveal_strlit("g-imp");
    reveal_strlit("p-imp");
    assert(!crate::text::is_white_space(made_up(prefix, m)[0]));
}

proof fn lemma_issue(ids: Seq<Seq<char>>, pool: PoolView, prefix: Seq<char>, id: Seq<char>)
    requires
        issued(ids, pool),
        prefix == group_prefix() || prefix == phrase_prefix(),
    ensures
        issued(ids.push(pool.repaired(prefix, id)), pool.after(prefix, id)),
{
    let new = pool.repaired(prefix, id);
    let all = ids.push(new);
    lemma_next_free(pool, prefix);
    lemma_made_up_not_blank(prefix, pool.next_free(prefix));
    assert(!pool.ids.contains(new));
    assert(!ids.contains(new));
    assert forall|x: Seq<char>| #[trigger] pool.after(prefix, id).ids.contains(x)
        <==> all.contains(x) by {
        if ids.contains(x) {
            let i = choose|i: int| 0 <= i < ids.len() && ids[i] == x;
            assert(all[i] == x);
        }
        assert(all[ids.len() as int] == new);
    }
    assert forall|i: int, j: int| 0 <= i < all.len() && 0 <= j < all.len() && i != j implies all[i]
        != all[j] by {
        if i < ids.len() && j < ids.len() {
            assert(ids[i] != ids[j]);
        } else if i < ids.len() {
            assert(ids.contains(ids[i]));
        } else {
            assert(ids.contains(ids[j]));
        }
    }
}

proof fn lemma_issue_phrases(ids: Seq<Seq<char>>, phrases: Seq<PhraseView>, pool: PoolView)
    requires
        issued(ids, pool),
    ensures
        issued(ids + phrase_ids(with_ids(phrases, pool)), pool_after(phrases, pool)),
        with_ids(phrases, pool).len() == phrases.len(),
    decreases phrases.len(),
{
    let done = with_ids(phrases, pool);
    if phrases.len() == 0 {
        assert(ids + phrase_ids(done) =~= ids);
    } else {
        let before = phrases.drop_last();
        lemma_issue_phrases(ids, before, pool);
        let so_far = ids + phrase_ids(with_ids(before, pool));
        lemma_issue(so_far, pool_after(before, pool), phrase_prefix(), phrases.last().id);
        assert(ids + phrase_ids(done) =~= so_far.push(done.last().id));
    }
}

/// Giving out ids leaves the rest of each phrase as it was.
proof fn lemma_with_ids_keeps(phrases: Seq<PhraseView>, pool: PoolView)
    ensures
        with_ids(phrases, pool).len() == phrases.len(),
        forall|i: int|
            0 <= i < phrases.len() ==> {
                &&& (#[trigger] with_ids(phrases, pool)[i]).text == phrases[i].text
                &&& with_ids(phrases, pool)[i].use_count == phrases[i].use_count
            },
    decreases phrases.len(),
{
    if phrases.len() > 0 {
        lemma_with_ids_keeps(phrases.drop_last(), pool);
        let before = with_ids(phrases.drop_last(), pool);
        assert forall|i: int| 0 <= i < phrases.len() implies {
            &&& (#[trigger] with_ids(phrases, pool)[i]).text == phrases[i].text
            &&& with_ids(phrases, pool)[i].use_count == phrases[i].use_count
        } by {
            if i < before.len() {
                assert(with_ids(phrases, pool)[i] == before[i]);
            }
        }
    }
}

proof fn lemma_none_too_long(phrases: Seq<PhraseView>)
    ensures
        first_too_long(phrases) is None <==> forall|i: int|
            0 <= i < phrases.len() ==> (#[trigger] phrases[i]).text.len() <= MAX_TEXT_CHARS,
    decreases phrases.len(),
{
    if phrases.len() > 0 {
        let before = phrases.drop_last();
        lemma_none_too_long(before);
        if first_too_long(phrases) is None {
            assert forall|i: int| 0 <= i < phrases.len() implies (#[trigger] phrases[i]).text.len()
                <= MAX_TEXT_CHARS by {
                if i < before.len() {
                    assert(before[i] == phrases[i]);
                }
            }
        } else if forall|i: int|
            0 <= i < phrases.len() ==> (#[trigger] phrases[i]).text.len() <= MAX_TEXT_CHARS {
            assert forall|i: int| 0 <= i < before.len() implies (#[trigger] before[i]).text.len()
                <= MAX_TEXT_CHARS by {
                assert(before[i] == phrases[i]);
            }
            assert(phrases[phrases.len() - 1].text.len() <= MAX_TEXT_CHARS);
        }
    }
}

/// What is worded says something, is one of the phrases, and is no more than
/// they were.
proof fn lemma_worded(phrases: Seq<PhraseView>)
    ensures
        worded(phrases).len() <= phrases.len(),
        forall|i: int|
            0 <= i < worded(phrases).len() ==> {
                &&& !crate::text::is_blank((#[trigger] worded(phrases)[i]).text)
                &&& phrases.contains(worded(phrases)[i])
            },
{
    let says = |p: PhraseView| !crate::text::is_blank(p.text);
    phrases.lemma_filter_len(says);
    assert forall|i: int| 0 <= i < worded(phrases).len() implies {
        &&& !crate::text::is_blank((#[trigger] worded(phrases)[i]).text)
        &&& phrases.contains(worded(phrases)[i])
    } by {
        phrases.lemma_filter_pred(says, i);
        assert(phrases.filter(says).contains(phrases.filter(says)[i]));
        phrases.lemma_filter_contains_rev(says, worded(phrases)[i]);
    }
}

proof fn lemma_worded_is_all(phrases: Seq<PhraseView>)
    requires
        forall|i: int|
            0 <= i < phrases.len() ==> !crate::text::is_blank((#[trigger] phrases[i]).text),
    ensures
        worded(phrases) == phrases,
    decreases phrases.len(),
{
    reveal_with_fuel(Seq::<_>::filter, 1);
    if phrases.len() > 0 {
        let before = phrases.drop_last();
        assert forall|i: int| 0 <= i < before.len() implies !crate::text::is_blank(
            (#[trigger] before[i]).text,
        ) by {
            assert(before[i] == phrases[i]);
        }
        lemma_worded_is_all(before);
        assert(phrases[phrases.len() - 1] == phrases.last());
        assert(worded(phrases) =~= phrases);
    } else {
        assert(worded(phrases) =~= phrases);
    }
}

proof fn lemma_sanitized_groups(groups: Seq<GroupView>)
    requires
        sanitized_groups(groups).fault is None,
    ensures
        sanitized_groups(groups).groups.len() == groups.len(),
        issued(ids_of(sanitized_groups(groups).groups), sanitized_groups(groups).pool),
        forall|i: int|
            0 <= i < groups.len() ==> clean_group(#[trigger] sanitized_groups(groups).groups[i]),
    decreases groups.len(),
{
    let out = sanitized_groups(groups);
    if groups.len() == 0 {
        assert(ids_of(out.groups) =~= Seq::empty());
    } else {
        let before = sanitized_groups(groups.drop_last());
        lemma_sanitized_groups(groups.drop_last());
        let g = groups.last();
        let done = sanitized_group(g, before.pool);
        let ids = ids_of(before.groups);
        lemma_issue(ids, before.pool, group_prefix(), g.id);
        let pool = before.pool.after(group_prefix(), g.id);
        lemma_issue_phrases(ids.push(done.group.id), worded(g.phrases), pool);
        assert(out.groups.drop_last() =~= before.groups);
        lemma_group_comes_out_clean(g, before.pool);
    }
}

proof fn lemma_group_comes_out_clean(g: GroupView, pool: PoolView)
    requires
        sanitized_group(g, pool).fault is None,
    ensures
        clean_group(sanitized_group(g, pool).group),
{
    let done = sanitized_group(g, pool).group;
    let pool = pool.after(group_prefix(), g.id);
    crate::text::lemma_trimmed(g.name);
    crate::text::trimming_is_idempotent(g.name);
    reveal_strlit("未命名");
    crate::text::lemma_trimmed_fixed(unnamed());
    lemma_worded(g.phrases);
    lemma_none_too_long(g.phrases);
    let w = worded(g.phrases);
    lemma_with_ids_keeps(w, pool);
    assert forall|i: int| 0 <= i < done.phrases.len() implies clean_phrase(
        #[trigger] done.phrases[i],
    ) by {
        assert(done.phrases[i] == with_ids(w, pool)[i]);
        assert(g.phrases.contains(w[i]));
    }
}

/// Whatever is taken in comes out clean: every name and text says something,
/// nothing is too large, and no two ids are the same.
pub proof fn taken_in_data_is_clean(groups: Seq<GroupView>)
    requires
        sanitized(groups).fault is None,
    ensures
        clean(sanitized(groups).groups),
{
    lemma_sanitized_groups(groups);
    lemma_ids_tell_apart(sanitized(groups).groups);
}

proof fn lemma_ids_kept(ids: Seq<Seq<char>>, phrases: Seq<PhraseView>, pool: PoolView)
    requires
        issued(ids, pool),
        (ids + phrase_ids(phrases)).no_duplicates(),
        forall|i: int|
            0 <= i < phrases.len() ==> !crate::text::is_blank((#[trigger] phrases[i]).id),
    ensures
        with_ids(phrases, pool) == phrases,
        issued(ids + phrase_ids(phrases), pool_after(phrases, pool)),
    decreases phrases.len(),
{
    let all = ids + phrase_ids(phrases);
    if phrases.len() == 0 {
        assert(all =~= ids);
    } else {
        let before = phrases.drop_last();
        let so_far = ids + phrase_ids(before);
        let id = phrases.last().id;
        assert(all =~= so_far.push(id));
        assert forall|i: int, j: int|
            0 <= i < so_far.len() && 0 <= j < so_far.len() && i != j implies so_far[i]
            != so_far[j] by {
            assert(all[i] == so_far[i] && all[j] == so_far[j]);
        }
        assert forall|i: int| 0 <= i < before.len() implies !crate::text::is_blank(
            (#[trigger] before[i]).id,
        ) by {
            assert(before[i] == phrases[i]);
        }
        lemma_ids_kept(ids, before, pool);
        let p = pool_after(before, pool);
        assert(!so_far.contains(id)) by {
            if so_far.contains(id) {
                let k = choose|k: int| 0 <= k < so_far.len() && so_far[k] == id;
                assert(all[k] == all[all.len() - 1]);
            }
        }
        assert(phrases[phrases.len() - 1].id == id);
        assert(p.may_keep(id));
        lemma_issue(so_far, p, phrase_prefix(), id);
        assert(with_ids(phrases, pool) =~= phrases);
    }
}

/// A clean group is kept where its ids are none of those given out before.
proof fn lemma_clean_group_is_kept(g: GroupView, first: Seq<Seq<char>>, pool: PoolView)
    requires
        clean_group(g),
        issued(first, pool),
        (first.push(g.id) + phrase_ids(g.phrases)).no_duplicates(),
        !crate::text::is_blank(g.id),
        forall|i: int|
            0 <= i < g.phrases.len() ==> !crate::text::is_blank((#[trigger] g.phrases[i]).id),
    ensures
        sanitized_group(g, pool).fault is None,
        sanitized_group(g, pool).group == g,
{
    let named = first.push(g.id);
    let all = named + phrase_ids(g.phrases);
    crate::text::lemma_trimmed(g.name);
    assert(!first.contains(g.id)) by {
        if first.contains(g.id) {
            let k = choose|k: int| 0 <= k < first.len() && first[k] == g.id;
            assert(all[k] == all[first.len() as int]);
        }
    }
    assert(pool.may_keep(g.id));
    lemma_issue(first, pool, group_prefix(), g.id);
    lemma_none_too_long(g.phrases);
    assert forall|i: int| 0 <= i < g.phrases.len() implies !crate::text::is_blank(
        (#[trigger] g.phrases[i]).text,
    ) && g.phrases[i].text.len() <= MAX_TEXT_CHARS by {
        assert(clean_phrase(g.phrases[i]));
    }
    lemma_worded_is_all(g.phrases);
    lemma_ids_kept(named, g.phrases, pool.after(group_prefix(), g.id));
}

/// The groups but the last are clean where all are, and the ids of the last are
/// none of theirs.
proof fn lemma_clean_but_last(groups: Seq<GroupView>)
    requires
        clean(groups),
        groups.len() > 0,
    ensures
        clean(groups.drop_last()),
        clean_group(groups.last()),
        (ids_of(groups.drop_last()).push(groups.last().id) + phrase_ids(
            groups.last().phrases,
        )).no_duplicates(),
        !crate::text::is_blank(groups.last().id),
        forall|i: int|
            0 <= i < groups.last().phrases.len() ==> !crate::text::is_blank(
                (#[trigger] groups.last().phrases[i]).id,
            ),
{
    let before = groups.drop_last();
    let g = groups.last();
    let all = ids_of(groups);
    lemma_ids_tell_apart(groups);
    lemma_ids_tell_apart(before);
    let first = ids_of(before);
    let named = first.push(g.id);
    assert(all == named + phrase_ids(g.phrases));
    assert forall|i: int| 0 <= i < first.len() implies all[i] == #[trigger] first[i] by {}
    assert forall|i: int, j: int|
        0 <= i < first.len() && 0 <= j < first.len() && i != j implies first[i] != first[j] by {
        assert(all[i] == first[i] && all[j] == first[j]);
    }
    assert forall|i: int| 0 <= i < before.len() implies clean_group(#[trigger] before[i]) by {
        assert(before[i] == groups[i]);
    }
    assert(clean_group(groups[groups.len() - 1]));
    assert(all[first.len() as int] == g.id);
    assert forall|i: int| 0 <= i < g.phrases.len() implies !crate::text::is_blank(
        (#[trigger] g.phrases[i]).id,
    ) by {
        assert(all[named.len() + i] == g.phrases[i].id);
    }
}

proof fn lemma_clean_is_kept(groups: Seq<GroupView>)
    requires
        clean(groups),
    ensures
        sanitized_groups(groups).fault is None,
        sanitized_groups(groups).groups == groups,
    decreases groups.len(),
{
    if groups.len() > 0 {
        let before = groups.drop_last();
        lemma_clean_but_last(groups);
        lemma_clean_is_kept(before);
        lemma_sanitized_groups(before);
        lemma_clean_group_is_kept(
            groups.last(),
            ids_of(before),
            sanitized_groups(before).pool,
        );
        assert(before.push(groups.last()) =~= groups);
    }
}

/// Clean data is taken in as it is.
pub proof fn clean_data_is_kept(groups: Seq<GroupView>)
    requires
        clean(groups),
    ensures
        sanitized(groups).fault is None,
        sanitized(groups).groups == groups,
{
    lemma_clean_is_kept(groups);
}

/// Taking in what was taken in before changes nothing.
pub proof fn taking_in_twice_is_taking_in_once(groups: Seq<GroupView>)
    requires
        sanitized(groups).fault is None,
    ensures
        sanitized(sanitized(groups).groups).fault is None,
        sanitized(sanitized(groups).groups).groups == sanitized(groups).groups,
{
    taken_in_data_is_clean(groups);
    clean_data_is_kept(sanitized(groups).groups);
}

/// Nothing that says something is lost: of each group, in its place, come out
/// its icon and, in their order, the texts and counts of all the phrases that
/// are not blank.
pub proof fn nothing_worded_is_lost(groups: Seq<GroupView>, i: int)
    requires
        sanitized(groups).fault is None,
        0 <= i < groups.len(),
    ensures
        sanitized(groups).groups.len() == groups.len(),
        sanitized(groups).groups[i].icon == groups[i].icon,
        sanitized(groups).groups[i].phrases.len() == worded(groups[i].phrases).len(),
        forall|k: int|
            0 <= k < worded(groups[i].phrases).len() ==> {
                &&& (#[trigger] sanitized(groups).groups[i].phrases[k]).text == worded(
                    groups[i].phrases,
                )[k].text
                &&& sanitized(groups).groups[i].phrases[k].use_count == worded(
                    groups[i].phrases,
                )[k].use_count
            },
    decreases groups.len(),
{
    let before = groups.drop_last();
    lemma_sanitized_groups(groups);
    if i < before.len() {
        nothing_worded_is_lost(before, i);
        assert(sanitized(groups).groups[i] == sanitized(before).groups[i]);
    } else {
        lemma_sanitized_groups(before);
        let pool = sanitized_groups(before).pool.after(group_prefix(), groups.last().id);
        lemma_with_ids_keeps(worded(groups.last().phrases), pool);
    }
}

/// What a group comes out as: its name is trimmed, or made up if it says nothing;
/// its icon stays; and its phrases are those that say something, in their order,
/// with the texts and the counts they had.
pub proof fn a_group_comes_out_as_it_was(groups: Seq<GroupView>, i: int)
    requires
        sanitized(groups).fault is None,
        0 <= i < groups.len(),
    ensures
        ({
            let g = groups[i];
            let r = sanitized(groups).groups[i];
            let kept = g.phrases.filter(|p: PhraseView| crate::text::trimmed(p.text).len() > 0);
            &&& sanitized(groups).groups.len() == groups.len()
            &&& crate::text::trimmed(g.name).len() > 0 ==> r.name == crate::text::trimmed(g.name)
            &&& crate::text::trimmed(g.name).len() == 0 ==> r.name == "未命名"@
            &&& r.icon == g.icon
            &&& r.phrases.len() == kept.len()
            &&& forall|k: int|
                #![trigger r.phrases[k]]
                0 <= k < kept.len() ==> r.phrases[k].text == kept[k].text && r.phrases[k].use_count
                    == kept[k].use_count
        }),
    decreases groups.len(),
{
    let before = groups.drop_last();
    lemma_sanitized_groups(groups);
    lemma_worded_by_trimming(groups[i].phrases);
    if i < before.len() {
        a_group_comes_out_as_it_was(before, i);
        assert(sanitized(groups).groups[i] == sanitized(before).groups[i]);
    } else {
        lemma_sanitized_groups(before);
        crate::text::lemma_trimmed(groups[i].name);
        let pool = sanitized_groups(before).pool.after(group_prefix(), groups.last().id);
        lemma_with_ids_keeps(worded(groups.last().phrases), pool);
    }
}

proof fn lemma_worded_by_trimming(phrases: Seq<PhraseView>)
    ensures
        worded(phrases) == phrases.filter(
            |p: PhraseView| crate::text::trimmed(p.text).len() > 0,
        ),
    decreases phrases.len(),
{
    reveal_with_fuel(Seq::<_>::filter, 1);
    if phrases.len() > 0 {
        lemma_worded_by_trimming(phrases.drop_last());
        crate::text::lemma_trimmed(phrases.last().text);
    }
}

/// The id that came with what comes out at that place: a group, or a phrase that
/// says something.
pub open spec fn came_with(groups: Seq<GroupView>, gi: int, pi: int) -> Seq<char> {
    if pi == -1 {
        groups[gi].id
    } else {
        groups[gi].phrases.filter(
            |p: PhraseView| crate::text::trimmed(p.text).len() > 0,
        )[pi].id
    }
}

/// Something before that place has that id.
pub open spec fn taken_before(out: Seq<GroupView>, gi: int, pi: int, id: Seq<char>) -> bool {
    exists|gj: int, pj: int|
        is_place(out, gj, pj) && (gj < gi || gj == gi && pj < pi) && #[trigger] id_at(out, gj, pj)
            == id
}

/// Something that comes with an id of its own keeps it: one that is not blank and
/// that nothing before it has come out with. Any other gets one that is made up,
/// of `g-imp` for a group or `p-imp` for a phrase and a number.
pub proof fn an_id_of_its_own_is_kept(groups: Seq<GroupView>, gi: int, pi: int)
    requires
        sanitized(groups).fault is None,
        is_place(sanitized(groups).groups, gi, pi),
    ensures
        ({
            let out = sanitized(groups).groups;
            let came = came_with(groups, gi, pi);
            let id = id_at(out, gi, pi);
            let is_own = crate::text::trimmed(came).len() > 0 && !taken_before(out, gi, pi, came);
            &&& is_own ==> id == came
            &&& !is_own && pi == -1 ==> exists|m: nat|
                m > 0 && id == "g-imp"@ + #[trigger] crate::text::decimal(m)
            &&& !is_own && pi != -1 ==> exists|m: nat|
                m > 0 && id == "p-imp"@ + #[trigger] crate::text::decimal(m)
        }),
    decreases groups.len(),
{
    let before = groups.drop_last();
    lemma_sanitized_groups(groups);
    if gi < before.len() {
        lemma_sanitized_groups(before);
        let (a, b) = (sanitized_groups(before).groups, sanitized(groups).groups);
        assert(forall|j: int| 0 <= j < before.len() ==> #[trigger] b[j] == a[j]);
        assert(a[gi] == b[gi]);
        an_id_of_its_own_is_kept(before, gi, pi);
        lemma_taken_in_prefix(a, b, gi, pi, came_with(groups, gi, pi));
    } else if pi == -1 {
        lemma_id_of_last_group(groups);
    } else {
        lemma_id_in_last_group(groups, pi);
    }
}

proof fn lemma_taken_in_prefix(
    a: Seq<GroupView>,
    b: Seq<GroupView>,
    gi: int,
    pi: int,
    id: Seq<char>,
)
    requires
        0 <= gi < a.len() <= b.len(),
        forall|j: int| 0 <= j < a.len() ==> #[trigger] b[j] == a[j],
    ensures
        taken_before(a, gi, pi, id) == taken_before(b, gi, pi, id),
{
    if taken_before(a, gi, pi, id) {
        let (gj, pj) = choose|gj: int, pj: int|
            is_place(a, gj, pj) && (gj < gi || gj == gi && pj < pi) && #[trigger] id_at(a, gj, pj)
                == id;
        assert(b[gj] == a[gj]);
        assert(id_at(b, gj, pj) == id);
    }
    if taken_before(b, gi, pi, id) {
        let (gj, pj) = choose|gj: int, pj: int|
            is_place(b, gj, pj) && (gj < gi || gj == gi && pj < pi) && #[trigger] id_at(b, gj, pj)
                == id;
        assert(b[gj] == a[gj]);
        assert(id_at(a, gj, pj) == id);
    }
}

proof fn lemma_id_of_last_group(groups: Seq<GroupView>)
    requires
        sanitized(groups).fault is None,
        groups.len() > 0,
    ensures
        ({
            let out = sanitized(groups).groups;
            let gi = groups.len() - 1;
            let came = groups[gi].id;
            let is_own = crate::text::trimmed(came).len() > 0 && !taken_before(out, gi, -1, came);
            &&& is_own ==> out[gi].id == came
            &&& !is_own ==> exists|m: nat|
                m > 0 && out[gi].id == "g-imp"@ + #[trigger] crate::text::decimal(m)
        }),
{
    let out = sanitized(groups).groups;
    let gi = groups.len() - 1;
    let came = groups[gi].id;
    let first = sanitized_groups(groups.drop_last());
    lemma_sanitized_groups(groups);
    lemma_sanitized_groups(groups.drop_last());
    lemma_ids_are_places(first.groups);
    crate::text::lemma_trimmed(came);
    lemma_next_free(first.pool, group_prefix());
    assert(forall|j: int| 0 <= j < gi ==> #[trigger] out[j] == first.groups[j]);
    let ids = ids_of(first.groups);
    assert(first.pool.ids.contains(came) <==> ids.contains(came));
    if ids.contains(came) {
        let (gj, pj) = choose|gj: int, pj: int|
            is_place(first.groups, gj, pj) && #[trigger] id_at(first.groups, gj, pj) == came;
        assert(out[gj] == first.groups[gj]);
        assert(id_at(out, gj, pj) == came);
        assert(taken_before(out, gi, -1, came));
    }
    if taken_before(out, gi, -1, came) {
        let (gj, pj) = choose|gj: int, pj: int|
            is_place(out, gj, pj) && (gj < gi || gj == gi && pj < -1) && #[trigger] id_at(
                out,
                gj,
                pj,
            ) == came;
        assert(out[gj] == first.groups[gj]);
        assert(id_at(first.groups, gj, pj) == came);
    }
    let m = first.pool.next_free(group_prefix());
    assert(made_up(group_prefix(), m) == "g-imp"@ + crate::text::decimal(m));
}

/// The ids given out before a phrase of the last group are those that stand
/// before it.
proof fn lemma_given_before(groups: Seq<GroupView>, pi: int, x: Seq<char>)
    requires
        sanitized(groups).fault is None,
        groups.len() > 0,
        0 <= pi <= worded(groups.last().phrases).len(),
    ensures
        ({
            let first = sanitized_groups(groups.drop_last());
            let pool = first.pool.after(group_prefix(), groups.last().id);
            let so_far = pool_after(worded(groups.last().phrases).take(pi), pool);
            &&& so_far.ids.finite()
            &&& so_far.ids.contains(x) <==> taken_before(
                sanitized(groups).groups,
                groups.len() - 1,
                pi,
                x,
            )
        }),
{
    let out = sanitized(groups).groups;
    let gi = groups.len() - 1;
    let g = groups.last();
    let first = sanitized_groups(groups.drop_last());
    lemma_sanitized_groups(groups);
    lemma_sanitized_groups(groups.drop_last());
    lemma_ids_are_places(first.groups);
    assert(forall|j: int| 0 <= j < gi ==> #[trigger] out[j] == first.groups[j]);
    let ids = ids_of(first.groups);
    let w = worded(g.phrases);
    let pool = first.pool.after(group_prefix(), g.id);
    lemma_issue(ids, first.pool, group_prefix(), g.id);
    let named = ids.push(out[gi].id);
    lemma_issue_phrases(named, w.take(pi), pool);
    lemma_with_ids_take(w, pool, pi);
    lemma_with_ids_keeps(w, pool);
    let some = with_ids(w.take(pi), pool);
    let given = named + phrase_ids(some);
    let so_far = pool_after(w.take(pi), pool);
    assert(out[gi].phrases == with_ids(w, pool));
    assert(so_far.ids.contains(x) <==> given.contains(x));
    if given.contains(x) {
        let k = choose|k: int| 0 <= k < given.len() && given[k] == x;
        if k < ids.len() {
            assert(ids[k] == x);
            assert(ids.contains(x));
            let (gj, pj) = choose|gj: int, pj: int|
                is_place(first.groups, gj, pj) && #[trigger] id_at(first.groups, gj, pj) == x;
            assert(out[gj] == first.groups[gj]);
            assert(id_at(out, gj, pj) == x);
        } else if k == ids.len() {
            assert(id_at(out, gi, -1) == x);
        } else {
            let pj = k - ids.len() - 1;
            assert(given[k] == phrase_ids(some)[pj]);
            assert(out[gi].phrases[pj] == some[pj]);
            assert(is_place(out, gi, pj));
            assert(id_at(out, gi, pj) == x);
        }
    }
    if taken_before(out, gi, pi, x) {
        let (gj, pj) = choose|gj: int, pj: int|
            is_place(out, gj, pj) && (gj < gi || gj == gi && pj < pi) && #[trigger] id_at(
                out,
                gj,
                pj,
            ) == x;
        if gj < gi {
            assert(out[gj] == first.groups[gj]);
            assert(id_at(first.groups, gj, pj) == x);
            let k = choose|k: int| 0 <= k < ids.len() && ids[k] == x;
            assert(given[k] == x);
        } else if pj == -1 {
            assert(given[ids.len() as int] == x);
        } else {
            assert(out[gi].phrases[pj] == some[pj]);
            assert(phrase_ids(some)[pj] == x);
            assert(given[ids.len() + 1 + pj] == x);
        }
    }
}

proof fn lemma_id_in_last_group(groups: Seq<GroupView>, pi: int)
    requires
        sanitized(groups).fault is None,
        groups.len() > 0,
        is_place(sanitized(groups).groups, groups.len() - 1, pi),
        pi >= 0,
    ensures
        ({
            let out = sanitized(groups).groups;
            let gi = groups.len() - 1;
            let came = came_with(groups, gi, pi);
            let id = out[gi].phrases[pi].id;
            let is_own = crate::text::trimmed(came).len() > 0 && !taken_before(out, gi, pi, came);
            &&& is_own ==> id == came
            &&& !is_own ==> exists|m: nat|
                m > 0 && id == "p-imp"@ + #[trigger] crate::text::decimal(m)
        }),
{
    let gi = groups.len() - 1;
    let g = groups.last();
    let w = worded(g.phrases);
    let first = sanitized_groups(groups.drop_last());
    let pool = first.pool.after(group_prefix(), g.id);
    lemma_worded_by_trimming(g.phrases);
    lemma_with_ids_keeps(w, pool);
    lemma_sanitized_groups(groups);
    lemma_sanitized_groups(groups.drop_last());
    assert(sanitized(groups).groups[gi].phrases == with_ids(w, pool));
    lemma_with_ids_at(w, pool, pi);
    let came = w[pi].id;
    lemma_given_before(groups, pi, came);
    crate::text::lemma_trimmed(came);
    let so_far = pool_after(w.take(pi), pool);
    lemma_next_free(so_far, phrase_prefix());
    let m = so_far.next_free(phrase_prefix());
    assert(made_up(phrase_prefix(), m) == "p-imp"@ + crate::text::decimal(m));
}

/// The ids of groups are those that stand at a place in them.
proof fn lemma_ids_are_places(groups: Seq<GroupView>)
    ensures
        forall|x: Seq<char>|
            #[trigger] ids_of(groups).contains(x) <==> exists|gi: int, pi: int|
                is_place(groups, gi, pi) && #[trigger] id_at(groups, gi, pi) == x,
        forall|gi: int, pi: int|
            is_place(groups, gi, pi) ==> ids_of(groups).contains(#[trigger] id_at(groups, gi, pi)),
{
    let ids = ids_of(groups);
    assert forall|gi: int, pi: int| is_place(groups, gi, pi) implies ids.contains(
        #[trigger] id_at(groups, gi, pi),
    ) by {
        lemma_index(groups, gi, pi);
        assert(ids[index_of(groups, gi, pi)] == id_at(groups, gi, pi));
    }
    assert forall|x: Seq<char>| #[trigger] ids.contains(x) implies exists|gi: int, pi: int|
        is_place(groups, gi, pi) && #[trigger] id_at(groups, gi, pi) == x by {
        let i = choose|i: int| 0 <= i < ids.len() && ids[i] == x;
        let (gi, pi) = lemma_place_of(groups, i);
        lemma_index(groups, gi, pi);
        assert(id_at(groups, gi, pi) == x);
    }
}

/// The id of one phrase depends on those before it alone.
proof fn lemma_with_ids_at(phrases: Seq<PhraseView>, pool: PoolView, i: int)
    requires
        0 <= i < phrases.len(),
    ensures
        i < with_ids(phrases, pool).len(),
        with_ids(phrases, pool)[i].id == pool_after(phrases.take(i), pool).repaired(
            phrase_prefix(),
            phrases[i].id,
        ),
    decreases phrases.len(),
{
    let before = phrases.drop_last();
    lemma_with_ids_keeps(before, pool);
    lemma_with_ids_keeps(phrases, pool);
    if i < before.len() {
        lemma_with_ids_at(before, pool, i);
        assert(before.take(i) =~= phrases.take(i));
    } else {
        assert(phrases.take(i) =~= before);
    }
}

proof fn lemma_with_ids_take(phrases: Seq<PhraseView>, pool: PoolView, n: int)
    requires
        0 <= n <= phrases.len(),
    ensures
        with_ids(phrases.take(n), pool) == with_ids(phrases, pool).take(n),
    decreases phrases.len(),
{
    lemma_with_ids_keeps(phrases, pool);
    if n < phrases.len() {
        let before = phrases.drop_last();
        lemma_with_ids_take(before, pool, n);
        lemma_with_ids_keeps(before, pool);
        assert(before.take(n) =~= phrases.take(n));
        assert(with_ids(before, pool).take(n) =~= with_ids(phrases, pool).take(n));
    } else {
        assert(phrases.take(n) =~= phrases);
        assert(with_ids(phrases, pool).take(n) =~= with_ids(phrases, pool));
    }
}

/// Data is refused exactly when it has too many groups, a group has too many
/// phrases, or a phrase has too many characters.
pub proof fn only_size_is_refused(groups: Seq<GroupView>)
    ensures
        sanitized(groups).fault is None <==> {
            &&& groups.len() <= MAX_GROUPS
            &&& forall|i: int|
                0 <= i < groups.len() ==> (#[trigger] groups[i]).phrases.len()
                    <= MAX_PHRASES_PER_GROUP && within_length(groups[i].phrases)
        },
{
    lemma_groups_accepted(groups);
}

/// No phrase has too many characters.
pub open spec fn within_length(phrases: Seq<PhraseView>) -> bool {
    forall|i: int| 0 <= i < phrases.len() ==> (#[trigger] phrases[i]).text.len() <= MAX_TEXT_CHARS
}

proof fn lemma_groups_accepted(groups: Seq<GroupView>)
    ensures
        sanitized_groups(groups).fault is None <==> forall|i: int|
            0 <= i < groups.len() ==> (#[trigger] groups[i]).phrases.len() <= MAX_PHRASES_PER_GROUP
                && within_length(groups[i].phrases),
    decreases groups.len(),
{
    if groups.len() > 0 {
        let before = groups.drop_last();
        lemma_groups_accepted(before);
        lemma_none_too_long(groups.last().phrases);
        assert(forall|i: int| 0 <= i < before.len() ==> #[trigger] before[i] == groups[i]);
        assert(groups[groups.len() - 1] == groups.last());
        if sanitized_groups(groups).fault is None {
            assert forall|i: int| 0 <= i < groups.len() implies (#[trigger] groups[i]).phrases.len()
                <= MAX_PHRASES_PER_GROUP && within_length(groups[i].phrases) by {
                if i < before.len() {
                    assert(before[i] == groups[i]);
                }
            }
        }
    }
}

/// What the user is told of a file of `size` bytes that is too large.
pub open spec fn file_too_large(size: nat) -> Seq<char> {
    "文件过大("@ + crate::text::decimal(size / 0x10_0000) + "MB,上限 "@ + crate::text::decimal(
        MAX_IMPORT_BYTES as nat / 0x10_0000,
    ) + "MB)"@
}

/// What the user is told of a file that does not parse.
pub open spec fn file_malformed(error: Seq<char>) -> Seq<char> {
    "文件格式不正确: "@ + error
}

/// Whether a file of `size` bytes may be read at all, to be asked before it is
/// read.
pub fn admit_import(size: u64) -> (r: Result<(), String>)
    ensures
        match r {
            Ok(_) => size <= MAX_IMPORT_BYTES,
            Err(m) => size > MAX_IMPORT_BYTES && m@ == file_too_large(size as nat),
        },
{
    if size > MAX_IMPORT_BYTES {
        let mut m = "文件过大(".to_owned();
        m.append(in_decimal((size / 0x10_0000) as u128).as_str());
        m.append("MB,上限 ");
        m.append(in_decimal((MAX_IMPORT_BYTES / 0x10_0000) as u128).as_str());
        m.append("MB)");
        Err(m)
    } else {
        Ok(())
    }
}

/// The data to take in, by what parsing the file gave: data that is put right,
/// or what the user is told.
pub fn read_import(parsed: Result<PhraseData, String>) -> (r: Result<PhraseData, String>)
    ensures
        match parsed {
            Err(e) => r matches Err(m) && m@ == file_malformed(e@),
            Ok(data) => match (r, sanitized(data@).fault) {
                (Ok(out), None) => out@ == sanitized(data@).groups,
                (Err(m), Some(f)) => m@ == f.message(),
                _ => false,
            },
        },
{
    match parsed {
        Ok(data) => {
            let mut data = data;
            match sanitize_import(&mut data) {
                Ok(()) => Ok(data),
                Err(m) => Err(m),
            }
        },
        Err(e) => {
            let mut m = "文件格式不正确: ".to_owned();
            m.append(e.as_str());
            Err(m)
        },
    }
}

/// What reading a file to be taken in came to.
pub enum FileRead {
    /// It could not be read, for this reason.
    Failed(String),
    /// It was read and does not parse, for this reason.
    Malformed(String),
    Parsed(PhraseData),
}

/// What to do about a file to be taken in.
pub enum ImportStep {
    /// Read it.
    Read,
    /// Refuse it, and tell the user this.
    Refuse(String),
    /// Take in this data.
    Take(PhraseData),
}

/// What to do about a file to be taken in, by its size, or why that cannot be
/// told, and by what reading it came to, if it was read. A file that is too large
/// is refused without being read, and whatever reading it came to.
pub fn import_step(size: Result<u64, String>, read: Option<FileRead>) -> (r: ImportStep)
    ensures
        r is Read <==> size is Ok && size->Ok_0 <= MAX_IMPORT_BYTES && read is None,
        match size {
            Err(e) => r matches ImportStep::Refuse(m) && m@ == e@,
            Ok(n) => if n > MAX_IMPORT_BYTES {
                r matches ImportStep::Refuse(m) && m@ == file_too_large(n as nat)
            } else {
                match read {
                    None => r is Read,
                    Some(FileRead::Failed(e)) => r matches ImportStep::Refuse(m) && m@ == e@,
                    Some(FileRead::Malformed(e)) => r matches ImportStep::Refuse(m) && m@
                        == file_malformed(e@),
                    Some(FileRead::Parsed(data)) => match sanitized(data@).fault {
                        Some(f) => r matches ImportStep::Refuse(m) && m@ == f.message(),
                        None => r matches ImportStep::Take(out) && out@ == sanitized(
                            data@,
                        ).groups,
                    },
                }
            },
        },
{
    let n: u64 = match size {
        Err(e) => {
            return ImportStep::Refuse(e);
        },
        Ok(n) => n,
    };
    if let Err(m) = admit_import(n) {
        return ImportStep::Refuse(m);
    }
    let parsed = match read {
        None => {
            return ImportStep::Read;
        },
        Some(FileRead::Failed(e)) => {
            return ImportStep::Refuse(e);
        },
        Some(FileRead::Malformed(e)) => Err(e),
        Some(FileRead::Parsed(data)) => Ok(data),
    };
    match read_import(parsed) {
        Ok(data) => ImportStep::Take(data),
        Err(m) => ImportStep::Refuse(m),
    }
}

/// The user is told what is too large, by how much, and what the limit is.
pub proof fn a_refusal_tells_size_and_limit(name: Seq<char>, count: nat, error: Seq<char>)
    ensures
        (Fault::TooManyGroups { count }).message() == "分组过多("@ + crate::text::decimal(count)
            + ",上限 "@ + crate::text::decimal(500) + ")"@,
        (Fault::TooManyPhrases { name, count }).message() == "分组「"@ + name + "」短语过多("@
            + crate::text::decimal(count) + ",上限 "@ + crate::text::decimal(5000) + ")"@,
        (Fault::TextTooLong { chars: count }).message() == "存在超长短语("@
            + crate::text::decimal(count) + " 字,上限 "@ + crate::text::decimal(10_000) + ")"@,
        file_too_large(count) == "文件过大("@ + crate::text::decimal(count / 1_048_576)
            + "MB,上限 "@ + crate::text::decimal(20) + "MB)"@,
        file_malformed(error) == "文件格式不正确: "@ + error,
{
}

/// A group that is not too large in any way.
pub open spec fn is_small(g: GroupView) -> bool {
    g.phrases.len() <= 5000 && forall|k: int|
        0 <= k < g.phrases.len() ==> (#[trigger] g.phrases[k]).text.len() <= 10_000
}

/// The group at `i` is the first that is too large, and this is why.
pub open spec fn is_first_fault(groups: Seq<GroupView>, i: int, fault: Fault) -> bool {
    let phrases = groups[i].phrases;
    &&& 0 <= i < groups.len()
    &&& forall|j: int| 0 <= j < i ==> is_small(#[trigger] groups[j])
    &&& match fault {
        Fault::TooManyGroups { count } => false,
        Fault::TooManyPhrases { name, count } => {
            &&& phrases.len() > 5000
            &&& count == phrases.len()
            &&& crate::text::trimmed(groups[i].name).len() > 0 ==> name == crate::text::trimmed(
                groups[i].name,
            )
            &&& crate::text::trimmed(groups[i].name).len() == 0 ==> name == "未命名"@
        },
        Fault::TextTooLong { chars } => {
            &&& phrases.len() <= 5000
            &&& exists|k: int|
                0 <= k < phrases.len() && chars == (#[trigger] phrases[k]).text.len() && chars
                    > 10_000 && forall|n: int|
                    0 <= n < k ==> (#[trigger] phrases[n]).text.len() <= 10_000
        },
    }
}

/// What the user is told of data that is refused is true of it: that it has too
/// many groups, and how many; or else of the first group that is too large, how
/// many phrases it has, or how long the first of them is that is too long.
pub proof fn a_refusal_is_true_of_the_data(groups: Seq<GroupView>)
    ensures
        groups.len() > 500 ==> sanitized(groups).fault == Some(
            Fault::TooManyGroups { count: groups.len() },
        ) && sanitized(groups).groups == groups,
        groups.len() <= 500 ==> match sanitized(groups).fault {
            Some(f) => exists|i: int| #[trigger] is_first_fault(groups, i, f),
            None => forall|i: int| 0 <= i < groups.len() ==> is_small(#[trigger] groups[i]),
        },
        sanitized(groups).groups.len() == groups.len(),
{
    lemma_first_fault(groups);
}

proof fn lemma_first_too_long(phrases: Seq<PhraseView>)
    ensures
        match first_too_long(phrases) {
            Some(c) => exists|k: int|
                0 <= k < phrases.len() && c == (#[trigger] phrases[k]).text.len() && c > 10_000
                    && forall|n: int| 0 <= n < k ==> (#[trigger] phrases[n]).text.len() <= 10_000,
            None => forall|k: int|
                0 <= k < phrases.len() ==> (#[trigger] phrases[k]).text.len() <= 10_000,
        },
    decreases phrases.len(),
{
    if phrases.len() > 0 {
        let before = phrases.drop_last();
        lemma_first_too_long(before);
        match first_too_long(before) {
            Some(c) => {
                let k = choose|k: int|
                    0 <= k < before.len() && c == (#[trigger] before[k]).text.len() && c > 10_000
                        && forall|n: int|
                        0 <= n < k ==> (#[trigger] before[n]).text.len() <= 10_000;
                assert(phrases[k] == before[k]);
                assert forall|n: int| 0 <= n < k implies (#[trigger] phrases[n]).text.len()
                    <= 10_000 by {
                    assert(phrases[n] == before[n]);
                }
            },
            None => {
                let k = phrases.len() - 1;
                assert(phrases[k] == phrases.last());
                assert forall|n: int| 0 <= n < k implies (#[trigger] phrases[n]).text.len()
                    <= 10_000 by {
                    assert(phrases[n] == before[n]);
                }
            },
        }
    }
}

proof fn lemma_first_fault(groups: Seq<GroupView>)
    ensures
        match sanitized_groups(groups).fault {
            Some(f) => exists|i: int| #[trigger] is_first_fault(groups, i, f),
            None => forall|i: int| 0 <= i < groups.len() ==> is_small(#[trigger] groups[i]),
        },
        sanitized_groups(groups).groups.len() == groups.len(),
    decreases groups.len(),
{
    if groups.len() > 0 {
        let before = groups.drop_last();
        let n = groups.len() - 1;
        lemma_first_fault(before);
        assert(forall|j: int| 0 <= j < n ==> #[trigger] groups[j] == before[j]);
        match sanitized_groups(before).fault {
            Some(f) => {
                let i = choose|i: int| #[trigger] is_first_fault(before, i, f);
                assert(groups[i] == before[i]);
                assert(is_first_fault(groups, i, f));
            },
            None => {
                let g = groups.last();
                assert(groups[n] == g);
                lemma_first_too_long(g.phrases);
                crate::text::lemma_trimmed(g.name);
                match sanitized_groups(groups).fault {
                    Some(f) => {
                        assert forall|j: int| 0 <= j < n implies is_small(
                            #[trigger] groups[j],
                        ) by {
                            assert(groups[j] == before[j]);
                        }
                        assert(is_first_fault(groups, n, f));
                    },
                    None => {
                        assert(is_small(g));
                        assert forall|j: int| 0 <= j < groups.len() implies is_small(
                            #[trigger] groups[j],
                        ) by {
                            if j < n {
                                assert(groups[j] == before[j]);
                            }
                        }
                    },
                }
            },
        }
    }
}

/// The numbers of made-up ids go up, and none is passed over whose id is free.
pub proof fn made_up_numbers_go_up(pool: PoolView, prefix: Seq<char>, id: Seq<char>)
    requires
        pool.ids.finite(),
    ensures
        ({
            let given = pool.repaired(prefix, id);
            let then = pool.after(prefix, id);
            let stays = crate::text::trimmed(id).len() > 0 && !pool.ids.contains(id);
            &&& stays ==> given == id && then.n == pool.n
            &&& !stays ==> {
                &&& then.n > pool.n
                &&& given == prefix + crate::text::decimal(then.n)
                &&& !pool.ids.contains(given)
                &&& forall|k: nat|
                    pool.n < k < then.n ==> pool.ids.contains(
                        prefix + #[trigger] crate::text::decimal(k),
                    )
            }
            &&& forall|x: Seq<char>|
                #[trigger] then.ids.contains(x) <==> x == given || pool.ids.contains(x)
        }),
{
    crate::text::lemma_trimmed(id);
    lemma_next_free(pool, prefix);
    assert forall|k: nat| pool.n < k < pool.next_free(prefix) implies pool.ids.contains(
        prefix + #[trigger] crate::text::decimal(k),
    ) by {
        assert(pool.ids.contains(made_up(prefix, k)));
    }
}

} // verus!
