//! What each thing the user does comes to, told of the single groups and phrases
//! that it touches and of all those that it leaves alone.

use crate::session::{
    delete_prompt, import_notice, import_prompt, phrase_total, restored_group, EditedView, Session,
    SessionView,
};
use crate::storage::{
    GroupView, PhraseView, SettingsView, MAX_GROUPS, MAX_PHRASES_PER_GROUP, MAX_TEXT_CHARS,
};
use crate::text::{decimal, trimmed};
use vstd::prelude::*;

verus! {

/// Nothing but the groups differs.
pub open spec fn differ_in_groups(s: SessionView, t: SessionView) -> bool {
    &&& t.settings == s.settings
    &&& t.active_group == s.active_group
    &&& t.items == s.items
    &&& t.pending_edit == s.pending_edit
    &&& t.confirm_action == s.confirm_action
    &&& t.last_deleted == s.last_deleted
}

/// Nothing but the group that is named differs.
pub open spec fn differ_in_last_group(a: SettingsView, b: SettingsView) -> bool {
    &&& b.pet_id == a.pet_id
    &&& b.theme == a.theme
    &&& b.pet_pos == a.pet_pos
    &&& b.custom_pet_dir == a.custom_pet_dir
    &&& b.auto_check_update == a.auto_check_update
    &&& b.sort_by_use == a.sort_by_use
}

/// Every group but the one at `gi` is where it was, as it was.
pub open spec fn others_stay(a: Seq<GroupView>, b: Seq<GroupView>, gi: int) -> bool {
    &&& b.len() == a.len()
    &&& forall|i: int| 0 <= i < a.len() && i != gi ==> #[trigger] b[i] == a[i]
}

/// The group keeps what is not a phrase.
pub open spec fn keeps_its_head(a: GroupView, b: GroupView) -> bool {
    b.id == a.id && b.name == a.name && b.icon == a.icon
}

/// Every phrase but the one at `pi` is where it was, as it was.
pub open spec fn other_phrases_stay(a: Seq<PhraseView>, b: Seq<PhraseView>, pi: int) -> bool {
    &&& b.len() == a.len()
    &&& forall|k: int| 0 <= k < a.len() && k != pi ==> #[trigger] b[k] == a[k]
}

/// `i`, or the nearest place in a list of `n`.
pub open spec fn nearest(i: int, n: int) -> int {
    if i >= n {
        n - 1
    } else if i < 0 {
        0
    } else {
        i
    }
}

/// There is such a phrase.
pub open spec fn is_there(groups: Seq<GroupView>, gi: int, pi: int) -> bool {
    0 <= gi < groups.len() && 0 <= pi < groups[gi].phrases.len()
}

/// In the group at `gi` the phrase at `pi` has another text, and nothing else
/// differs.
pub open spec fn differ_in_text(
    a: Seq<GroupView>,
    b: Seq<GroupView>,
    gi: int,
    pi: int,
    text: Seq<char>,
) -> bool {
    &&& others_stay(a, b, gi)
    &&& keeps_its_head(a[gi], b[gi])
    &&& other_phrases_stay(a[gi].phrases, b[gi].phrases, pi)
    &&& b[gi].phrases[pi].text == text
    &&& b[gi].phrases[pi].id == a[gi].phrases[pi].id
    &&& b[gi].phrases[pi].use_count == a[gi].phrases[pi].use_count
}

/// The group at `gi` has one phrase more, at its end, and nothing else differs.
pub open spec fn differ_in_added(
    a: Seq<GroupView>,
    b: Seq<GroupView>,
    gi: int,
    id: Seq<char>,
    text: Seq<char>,
) -> bool {
    let n = a[gi].phrases.len() as int;
    &&& others_stay(a, b, gi)
    &&& keeps_its_head(a[gi], b[gi])
    &&& b[gi].phrases.len() == n + 1
    &&& forall|k: int| 0 <= k < n ==> #[trigger] b[gi].phrases[k] == a[gi].phrases[k]
    &&& b[gi].phrases[n].id == id
    &&& b[gi].phrases[n].text == text
    &&& b[gi].phrases[n].use_count == 0
}

/// A text that may be kept as a phrase once it is trimmed.
pub open spec fn may_be_kept(text: Seq<char>) -> bool {
    0 < trimmed(text).len() <= MAX_TEXT_CHARS
}

/// Data that is taken in takes the place of all the data there was, whole and in
/// its order. What was deleted cannot be brought back, and the first group is
/// shown. If the data there was is not safe, nothing changes.
pub proof fn an_import_replaces_everything(s: SessionView, new: Seq<GroupView>)
    ensures
        ({
            let t = s.import_applied(new, true);
            &&& t.groups.len() == new.len()
            &&& forall|i: int| 0 <= i < new.len() ==> #[trigger] t.groups[i] == new[i]
            &&& t.last_deleted is None
            &&& t.active_group == 0
            &&& new.len() > 0 ==> t.settings.last_group == Some(new[0].id)
            &&& new.len() == 0 ==> t.settings.last_group is None
            &&& differ_in_last_group(s.settings, t.settings)
            &&& t.items == s.items && t.pending_edit == s.pending_edit && t.confirm_action
                == s.confirm_action
        }),
        s.import_applied(new, false) == s,
{
}

/// The editor, open on a phrase, gives that very phrase the text, trimmed, and
/// is then open on nothing. The phrase keeps its id and its count, and nothing
/// else changes.
pub proof fn the_editor_changes_the_phrase_it_is_open_on(
    s: SessionView,
    gi: usize,
    pi: usize,
    text: Seq<char>,
    id: Seq<char>,
)
    requires
        s.pending_edit == Some((gi, Some(pi))),
        is_there(s.groups, gi as int, pi as int),
        may_be_kept(text),
    ensures
        ({
            let (t, said) = s.editor_saved(text, id);
            &&& said == EditedView::Done
            &&& differ_in_text(s.groups, t.groups, gi as int, pi as int, trimmed(text))
            &&& t.pending_edit is None
            &&& differ_in_groups(s, SessionView { pending_edit: s.pending_edit, ..t })
        }),
{
}

/// The editor, open on a new phrase, adds it at the end of the group it is open
/// on, if that has room, and is then open on nothing. Nothing else changes.
pub proof fn the_editor_adds_where_it_is_open(
    s: SessionView,
    gi: usize,
    text: Seq<char>,
    id: Seq<char>,
)
    requires
        s.pending_edit == Some((gi, None::<usize>)),
        gi < s.groups.len(),
        may_be_kept(text),
    ensures
        ({
            let (t, said) = s.editor_saved(text, id);
            &&& if s.groups[gi as int].phrases.len() < MAX_PHRASES_PER_GROUP {
                &&& said == EditedView::Done
                &&& differ_in_added(s.groups, t.groups, gi as int, id, trimmed(text))
            } else {
                said == EditedView::Refused("⚠ 该分组短语已达上限"@) && t.groups == s.groups
            }
            &&& t.pending_edit is None
            &&& differ_in_groups(s, SessionView { pending_edit: s.pending_edit, ..t })
        }),
{
}

/// The editor changes no phrase where it has nothing to keep or nowhere to keep
/// it, and stays open on what it was open on where the text is at fault.
pub proof fn the_editor_changes_nothing_else(s: SessionView, text: Seq<char>, id: Seq<char>)
    ensures
        ({
            let (t, said) = s.editor_saved(text, id);
            &&& trimmed(text).len() == 0 ==> t == s && said == EditedView::Unchanged
            &&& trimmed(text).len() > MAX_TEXT_CHARS ==> t == s && said == EditedView::Refused(
                "⚠ 内容过长(上限 "@ + decimal(10_000) + " 字),"@ + "未保存"@,
            )
            &&& may_be_kept(text) && s.pending_edit is None ==> t == s && said
                == EditedView::Unchanged
            &&& may_be_kept(text) && s.pending_edit is Some && (s.pending_edit->0).0
                >= s.groups.len() ==> t.groups == s.groups && said == EditedView::Unchanged
            &&& may_be_kept(text) && s.pending_edit is Some && (s.pending_edit->0).1 is Some
                && !is_there(
                s.groups,
                (s.pending_edit->0).0 as int,
                (s.pending_edit->0).1->0 as int,
            ) ==> t.groups == s.groups
            &&& may_be_kept(text) ==> t.pending_edit is None
            &&& differ_in_groups(s, SessionView { pending_edit: s.pending_edit, ..t })
        }),
{
}

/// A phrase is added at the end of the group that is shown, with the text
/// trimmed, the id given and no use counted, if the group has room. All that was
/// there stays. A text that says nothing is not added, and one that is too long
/// is refused.
pub proof fn adding_keeps_all_there_was(s: SessionView, text: Seq<char>, id: Seq<char>)
    requires
        0 <= s.active_group,
    ensures
        ({
            let (t, said) = s.phrase_added(text, id);
            let gi = s.active_group;
            &&& differ_in_groups(s, t)
            &&& may_be_kept(text) && gi < s.groups.len() && s.groups[gi].phrases.len()
                < MAX_PHRASES_PER_GROUP ==> said == EditedView::Done && differ_in_added(
                s.groups,
                t.groups,
                gi,
                id,
                trimmed(text),
            )
            &&& may_be_kept(text) && gi < s.groups.len() && s.groups[gi].phrases.len()
                >= MAX_PHRASES_PER_GROUP ==> t.groups == s.groups && said == EditedView::Refused(
                "⚠ 该分组短语已达上限"@,
            )
            &&& may_be_kept(text) && gi >= s.groups.len() ==> t.groups == s.groups && said
                == EditedView::Done
            &&& trimmed(text).len() == 0 ==> t.groups == s.groups && said == EditedView::Unchanged
            &&& trimmed(text).len() > MAX_TEXT_CHARS ==> t.groups == s.groups && said
                == EditedView::Refused("⚠ 内容过长(上限 "@ + decimal(10_000) + " 字),"@ + "未添加"@)
        }),
{
}

/// The phrase at `i` of the group that is shown, and it alone, gets the text,
/// trimmed. Where there is none nothing changes, nor where the text says nothing
/// or is too long, and then the user is told.
pub proof fn editing_changes_one_phrase(s: SessionView, i: int, text: Seq<char>)
    requires
        0 <= s.active_group,
    ensures
        ({
            let (t, said) = s.phrase_edited(i, text);
            let gi = s.active_group;
            &&& differ_in_groups(s, t)
            &&& may_be_kept(text) ==> said == EditedView::Done
            &&& may_be_kept(text) && is_there(s.groups, gi, i) ==> differ_in_text(
                s.groups,
                t.groups,
                gi,
                i,
                trimmed(text),
            )
            &&& !may_be_kept(text) || !is_there(s.groups, gi, i) ==> t.groups == s.groups
            &&& trimmed(text).len() == 0 ==> said == EditedView::Refused("⚠ 内容不能为空,未修改"@)
            &&& trimmed(text).len() > MAX_TEXT_CHARS ==> said == EditedView::Refused(
                "⚠ 内容过长(上限 "@ + decimal(10_000) + " 字),"@ + "未修改"@,
            )
        }),
{
}

/// A copy is counted for the phrase that was copied, and for no other. A count
/// that can go no higher stays.
pub proof fn a_copy_counts_for_the_phrase_copied(s: SessionView, gi: int, pi: int)
    ensures
        ({
            let t = s.copy_recorded(gi, pi);
            &&& differ_in_groups(s, t)
            &&& is_there(s.groups, gi, pi) ==> {
                let (p, q) = (s.groups[gi].phrases[pi], t.groups[gi].phrases[pi]);
                &&& others_stay(s.groups, t.groups, gi)
                &&& keeps_its_head(s.groups[gi], t.groups[gi])
                &&& other_phrases_stay(s.groups[gi].phrases, t.groups[gi].phrases, pi)
                &&& q.id == p.id && q.text == p.text
                &&& p.use_count < u32::MAX ==> q.use_count == p.use_count + 1
                &&& p.use_count == u32::MAX ==> q.use_count == u32::MAX
            }
            &&& !is_there(s.groups, gi, pi) ==> t.groups == s.groups
        }),
{
}

/// A phrase that is deleted goes, and it alone: those before it stay where they
/// are and those after it move up by one. It is kept with where it was.
pub proof fn deleting_takes_one_phrase(s: SessionView, gi: usize, pi: usize)
    ensures
        ({
            let t = s.deleted(gi as int, pi as int);
            let (g, i) = (gi as int, pi as int);
            &&& differ_in_groups(s, SessionView { last_deleted: s.last_deleted, ..t })
            &&& is_there(s.groups, g, i) ==> {
                let (a, b) = (s.groups[g].phrases, t.groups[g].phrases);
                &&& others_stay(s.groups, t.groups, g)
                &&& keeps_its_head(s.groups[g], t.groups[g])
                &&& b.len() == a.len() - 1
                &&& forall|k: int| 0 <= k < i ==> #[trigger] b[k] == a[k]
                &&& forall|k: int| i <= k < b.len() ==> #[trigger] b[k] == a[k + 1]
                &&& t.last_deleted == Some((gi, pi, a[i]))
            }
            &&& !is_there(s.groups, g, i) ==> t == s
        }),
{
}

/// The phrase that was deleted last comes back to the group it was in, or to the
/// last one if there are fewer, at the place it was at, or at the end if there
/// are fewer. All others stay, in their order. It comes back once.
pub proof fn undo_puts_one_phrase_back(s: SessionView)
    ensures
        ({
            let t = s.undone();
            &&& t.last_deleted is None
            &&& differ_in_groups(s, SessionView { last_deleted: s.last_deleted, ..t })
            &&& s.last_deleted is Some && s.groups.len() > 0 ==> {
                let (g0, p0, p) = s.last_deleted->0;
                let g = nearest(g0 as int, s.groups.len() as int);
                let (a, b) = (s.groups[g].phrases, t.groups[g].phrases);
                let i = nearest(p0 as int, a.len() as int + 1);
                &&& others_stay(s.groups, t.groups, g)
                &&& keeps_its_head(s.groups[g], t.groups[g])
                &&& b.len() == a.len() + 1
                &&& b[i] == p
                &&& forall|k: int| 0 <= k < i ==> #[trigger] b[k] == a[k]
                &&& forall|k: int| i <= k < a.len() ==> b[k + 1] == #[trigger] a[k]
            }
            &&& s.last_deleted is None || s.groups.len() == 0 ==> t.groups == s.groups
        }),
        s.can_undo() <==> s.last_deleted is Some && s.groups.len() > 0,
{
}

/// The group that is shown, and it alone, gets the name, trimmed. A name that
/// says nothing changes nothing.
pub proof fn renaming_names_the_group_shown(s: SessionView, name: Seq<char>)
    requires
        0 <= s.active_group,
    ensures
        ({
            let (t, said) = s.group_renamed(name);
            let gi = s.active_group;
            &&& differ_in_groups(s, t)
            &&& said == (trimmed(name).len() > 0)
            &&& said && gi < s.groups.len() ==> {
                &&& others_stay(s.groups, t.groups, gi)
                &&& t.groups[gi].name == trimmed(name)
                &&& t.groups[gi].id == s.groups[gi].id
                &&& t.groups[gi].icon == s.groups[gi].icon
                &&& t.groups[gi].phrases == s.groups[gi].phrases
            }
            &&& !said || gi >= s.groups.len() ==> t.groups == s.groups
        }),
{
}

/// The group that is shown, and it alone, gets the icon of that number; the first
/// for a number below all, the last for one above all.
pub proof fn an_icon_goes_to_the_group_shown(s: SessionView, i: int)
    requires
        0 <= s.active_group,
    ensures
        ({
            let t = s.group_icon_set(i);
            let gi = s.active_group;
            let keys = crate::icons::icon_keys();
            &&& differ_in_groups(s, t)
            &&& gi < s.groups.len() ==> {
                &&& others_stay(s.groups, t.groups, gi)
                &&& 0 <= i < 12 ==> t.groups[gi].icon == Some(keys[i])
                &&& i < 0 ==> t.groups[gi].icon == Some("star"@)
                &&& i > 11 ==> t.groups[gi].icon == Some("folder"@)
                &&& t.groups[gi].id == s.groups[gi].id
                &&& t.groups[gi].name == s.groups[gi].name
                &&& t.groups[gi].phrases == s.groups[gi].phrases
            }
            &&& gi >= s.groups.len() ==> t.groups == s.groups
        }),
{
}

/// A new group comes last, empty, and is shown; all the others stay. Where there
/// can be no more, nothing changes.
pub proof fn a_new_group_comes_last(s: SessionView, id: Seq<char>)
    ensures
        ({
            let (t, said) = s.group_added(id);
            let n = s.groups.len() as int;
            &&& said == (n < MAX_GROUPS)
            &&& said ==> {
                &&& t.groups.len() == n + 1
                &&& forall|i: int| 0 <= i < n ==> #[trigger] t.groups[i] == s.groups[i]
                &&& t.groups[n].id == id
                &&& t.groups[n].name == "新分组"@
                &&& t.groups[n].icon == Some("folder"@)
                &&& t.groups[n].phrases.len() == 0
                &&& t.active_group == n
                &&& t.settings.last_group == Some(id)
                &&& differ_in_last_group(s.settings, t.settings)
                &&& t.items == s.items && t.pending_edit == s.pending_edit && t.confirm_action
                    == s.confirm_action && t.last_deleted == s.last_deleted
            }
            &&& !said ==> t == s
        }),
{
}

/// The group that is shown goes, and it alone: those before it stay where they
/// are and those after it move up by one. The first of them is shown.
pub proof fn deleting_takes_the_group_shown(s: SessionView)
    requires
        0 <= s.active_group,
    ensures
        ({
            let t = s.group_deleted();
            let gi = s.active_group;
            &&& gi < s.groups.len() ==> {
                &&& t.groups.len() == s.groups.len() - 1
                &&& forall|i: int| 0 <= i < gi ==> #[trigger] t.groups[i] == s.groups[i]
                &&& forall|i: int| gi <= i < t.groups.len() ==> #[trigger] t.groups[i]
                    == s.groups[i + 1]
            }
            &&& gi >= s.groups.len() ==> t.groups == s.groups
            &&& t.active_group == 0
            &&& t.groups.len() > 0 ==> t.settings.last_group == Some(t.groups[0].id)
            &&& t.groups.len() == 0 ==> t.settings.last_group is None
            &&& differ_in_last_group(s.settings, t.settings)
            &&& t.items == s.items && t.pending_edit == s.pending_edit && t.confirm_action
                == s.confirm_action && t.last_deleted == s.last_deleted
        }),
{
}

/// The group that is chosen is shown and kept in the settings; the last, where
/// there is none there. Nothing else changes.
pub proof fn choosing_shows_the_group_chosen(s: SessionView, idx: int)
    requires
        0 <= idx,
    ensures
        ({
            let t = s.with_active(idx);
            let n = s.groups.len() as int;
            &&& t.groups == s.groups
            &&& idx < n ==> t.active_group == idx
            &&& idx >= n > 0 ==> t.active_group == n - 1
            &&& n == 0 ==> t.active_group == 0 && t.settings.last_group is None
            &&& n > 0 ==> t.settings.last_group == Some(s.groups[t.active_group].id)
            &&& differ_in_last_group(s.settings, t.settings)
            &&& t.items == s.items && t.pending_edit == s.pending_edit && t.confirm_action
                == s.confirm_action && t.last_deleted == s.last_deleted
        }),
{
}

/// What was taken from one place stands at the other, and but for it the two
/// lists are the same.
pub open spec fn is_drag<T>(a: Seq<T>, b: Seq<T>, from: int, to: int) -> bool {
    &&& b.len() == a.len()
    &&& b[to] == a[from]
    &&& b.remove(to) == a.remove(from)
}

/// A group that is dragged comes to where it is dropped, the others keep their
/// order, and it is shown. A place outside the list means the nearest in it.
pub proof fn a_group_comes_to_where_it_is_dropped(s: SessionView, from: int, to: int)
    ensures
        ({
            let (t, said) = s.group_dropped(from, to);
            let n = s.groups.len() as int;
            let (f, d) = (nearest(from, n), nearest(to, n));
            &&& said == (n > 0 && f != d)
            &&& said ==> {
                &&& is_drag(s.groups, t.groups, f, d)
                &&& t.active_group == d
                &&& t.settings.last_group == Some(s.groups[f].id)
                &&& differ_in_last_group(s.settings, t.settings)
                &&& t.items == s.items && t.pending_edit == s.pending_edit && t.confirm_action
                    == s.confirm_action && t.last_deleted == s.last_deleted
            }
            &&& !said ==> t == s
        }),
{
    let (t, said) = s.group_dropped(from, to);
    if said {
        let n = s.groups.len() as int;
        let (f, d) = (nearest(from, n), nearest(to, n));
        assert(t.groups.remove(d) =~= s.groups.remove(f));
    }
}

/// A phrase of the group that is shown comes to where it is dropped, and the
/// others keep their order. Nothing else changes.
pub proof fn a_phrase_comes_to_where_it_is_dropped(s: SessionView, from: int, to: int)
    requires
        0 <= s.active_group,
    ensures
        ({
            let (t, said) = s.phrase_dropped(from, to);
            let gi = s.active_group;
            let n = s.groups[gi].phrases.len() as int;
            let (f, d) = (nearest(from, n), nearest(to, n));
            &&& said == (gi < s.groups.len() && n > 0 && f != d)
            &&& said ==> {
                &&& differ_in_groups(s, t)
                &&& others_stay(s.groups, t.groups, gi)
                &&& keeps_its_head(s.groups[gi], t.groups[gi])
                &&& is_drag(s.groups[gi].phrases, t.groups[gi].phrases, f, d)
            }
            &&& !said ==> t == s
        }),
{
    let (t, said) = s.phrase_dropped(from, to);
    if said {
        let gi = s.active_group;
        let n = s.groups[gi].phrases.len() as int;
        let (f, d) = (nearest(from, n), nearest(to, n));
        assert(t.groups[gi].phrases.remove(d) =~= s.groups[gi].phrases.remove(f));
    }
}

/// At the start the first group is shown that has the id that was kept, and the
/// first of all where none has it.
pub proof fn the_group_kept_is_found(groups: Seq<GroupView>, last: Option<Seq<char>>)
    ensures
        ({
            let r = restored_group(groups, last);
            &&& (exists|i: int| 0 <= i < groups.len() && Some((#[trigger] groups[i]).id) == last)
                ==> 0 <= r < groups.len() && Some(groups[r].id) == last && forall|k: int|
                0 <= k < r ==> Some((#[trigger] groups[k]).id) != last
            &&& (forall|i: int|
                0 <= i < groups.len() ==> Some((#[trigger] groups[i]).id) != last) ==> r == 0
        }),
{
    if exists|i: int| 0 <= i < groups.len() && Some((#[trigger] groups[i]).id) == last {
        let i = choose|i: int| 0 <= i < groups.len() && Some((#[trigger] groups[i]).id) == last;
        crate::laws::lemma_first_of_id(groups, last, i);
    }
}

/// The phrases are counted group by group, and the order of the groups does not
/// matter.
pub proof fn phrases_are_counted_by_group(a: Seq<GroupView>, g: GroupView, b: Seq<GroupView>)
    ensures
        phrase_total(Seq::empty()) == 0,
        phrase_total(a + seq![g] + b) == phrase_total(a + b) + g.phrases.len(),
    decreases b.len(),
{
    let all = a + seq![g] + b;
    if b.len() == 0 {
        assert(all.drop_last() =~= a);
        assert(a + b =~= a);
    } else {
        phrases_are_counted_by_group(a, g, b.drop_last());
        assert(all.drop_last() =~= a + seq![g] + b.drop_last());
        assert((a + b).drop_last() =~= a + b.drop_last());
    }
}

/// The user who is about to delete a group is told its name and how many phrases
/// go with it.
pub proof fn a_deletion_names_what_goes(g: GroupView)
    ensures
        delete_prompt(g).kind == 0,
        delete_prompt(g).action_label == "删除"@,
        delete_prompt(g).title == "删除分组"@,
        delete_prompt(g).message == "将删除「"@ + g.name + "」及其中 "@ + decimal(g.phrases.len())
            + " 条常用语,此操作不可撤销。"@,
{
}

/// The user who is about to take in data is told how many groups and how many
/// phrases come, and how many of each go.
pub proof fn an_import_tells_what_comes_and_goes(new: Seq<GroupView>, current: Seq<GroupView>)
    ensures
        import_prompt(new, current).kind == 1,
        import_prompt(new, current).action_label == "替换导入"@,
        import_prompt(new, current).title == "导入并替换"@,
        import_prompt(new, current).message == "将用文件内容(共 "@ + decimal(new.len())
            + " 组 "@ + decimal(phrase_total(new)) + " 条)替换当前全部常用语("@ + decimal(
            current.len(),
        ) + " 组 "@ + decimal(phrase_total(current))
            + " 条)。\n当前数据会先备份为 phrases.pre-import.json。"@,
{
}

/// The user is told why data was not taken in, and where the data that it
/// replaced is to be found.
pub proof fn an_import_tells_how_it_went(error: Seq<char>)
    ensures
        import_notice(Ok(())) == "已导入 ✓(原数据备份在 phrases.pre-import.json)"@,
        import_notice(Err(error)) == "⚠ 导入中止:备份当前数据失败("@ + error + ")"@,
{
}

/// What is said of a session is said of the very texts, names, counts and places
/// that it holds.
pub proof fn a_session_is_seen_whole(s: Session, gi: int, pi: int)
    ensures
        s@.groups.len() == s.data.groups@.len(),
        s@.active_group == s.active_group,
        s@.items.len() == s.items@.len(),
        s@.pending_edit == s.pending_edit,
        s@.settings.pet_id == s.settings.pet_id@,
        s@.settings.theme == s.settings.theme@,
        s@.settings.pet_pos == s.settings.pet_pos,
        s@.settings.auto_check_update == s.settings.auto_check_update,
        s@.settings.sort_by_use == s.settings.sort_by_use,
        s.settings.last_group matches Some(l) ==> s@.settings.last_group == Some(l@),
        s.settings.last_group is None ==> s@.settings.last_group is None,
        s.settings.custom_pet_dir matches Some(d) ==> s@.settings.custom_pet_dir == Some(d@),
        s.settings.custom_pet_dir is None ==> s@.settings.custom_pet_dir is None,
        0 <= gi < s.data.groups@.len() ==> {
            let (v, g) = (s@.groups[gi], s.data.groups@[gi]);
            &&& v.id == g.id@ && v.name == g.name@
            &&& g.icon matches Some(k) ==> v.icon == Some(k@)
            &&& g.icon is None ==> v.icon is None
            &&& v.phrases.len() == g.phrases@.len()
            &&& 0 <= pi < g.phrases@.len() ==> v.phrases[pi].id == g.phrases@[pi].id@
                && v.phrases[pi].text == g.phrases@[pi].text@ && v.phrases[pi].use_count
                == g.phrases@[pi].use_count
        },
        s.last_deleted matches Some((g, i, p)) ==> s@.last_deleted matches Some((h, j, q)) && h == g
            && j == i && q.id == p.id@ && q.text == p.text@ && q.use_count == p.use_count,
        s.last_deleted is None ==> s@.last_deleted is None,
        0 <= pi < s.items@.len() ==> s@.items[pi].text == s.items@[pi].text@
            && s@.items[pi].group_idx == s.items@[pi].group_idx && s@.items[pi].phrase_idx
            == s.items@[pi].phrase_idx,
{
}

} // verus!
