//! What holds of a session whatever the user does.

use crate::import::{clean, clean_group, clean_phrase, id_at, ids_tell_apart, is_place};
use crate::session::{moved, place, restored_group, with_phrases, ConfirmView, SessionView};
use crate::storage::{
    GroupView, PhraseView, SettingsView, MAX_GROUPS, MAX_PHRASES_PER_GROUP, MAX_TEXT_CHARS,
};
use vstd::prelude::*;

verus! {

/// Something that the user does.
pub enum Act {
    Select { idx: int },
    Delete { gi: int, pi: int },
    ForgetDeleted,
    Undo,
    SaveEditor { text: Seq<char>, id: Seq<char> },
    AddPhrase { text: Seq<char>, id: Seq<char> },
    EditPhrase { i: int, text: Seq<char> },
    DropPhrase { from: int, to: int },
    DropGroup { from: int, to: int },
    AddGroup { id: Seq<char> },
    RenameGroup { name: Seq<char> },
    SetIcon { i: int },
    DeleteGroup,
    Import { new: Seq<GroupView>, safe: bool },
    Copy { gi: int, pi: int },
    /// Opens the editor on something, or closes it.
    OpenEditor { target: Option<(usize, Option<usize>)> },
    /// Is asked to confirm something.
    Ask { action: Option<ConfirmView> },
    ChooseTheme { theme: Seq<char> },
    ChoosePet { pet_id: Seq<char> },
    ChooseDir { dir: Seq<char> },
    ChooseSort { by_use: bool },
    ChooseAutoCheck { on: bool },
    MovePet { x: i32, y: i32 },
    ShowSettings,
}

/// The session once the user has done it.
#[verifier::opaque]
pub open spec fn acted(s: SessionView, act: Act) -> SessionView {
    match act {
        Act::Select { idx } => if 0 <= idx < s.groups.len() {
            s.with_active(idx)
        } else {
            s
        },
        Act::Delete { gi, pi } => s.deleted(gi, pi),
        Act::ForgetDeleted => SessionView { last_deleted: None, ..s },
        Act::Undo => s.undone(),
        Act::SaveEditor { text, id } => s.editor_saved(text, id).0,
        Act::AddPhrase { text, id } => s.phrase_added(text, id).0,
        Act::EditPhrase { i, text } => s.phrase_edited(i, text).0,
        Act::DropPhrase { from, to } => s.phrase_dropped(from, to).0,
        Act::DropGroup { from, to } => s.group_dropped(from, to).0,
        Act::AddGroup { id } => s.group_added(id).0,
        Act::RenameGroup { name } => s.group_renamed(name).0,
        Act::SetIcon { i } => s.group_icon_set(i),
        Act::DeleteGroup => s.group_deleted(),
        Act::Import { new, safe } => s.import_applied(new, safe),
        Act::Copy { gi, pi } => s.copy_recorded(gi, pi),
        Act::OpenEditor { target } => SessionView { pending_edit: target, ..s },
        Act::Ask { action } => SessionView { confirm_action: action, ..s },
        Act::ChooseTheme { theme } => SessionView {
            settings: SettingsView { theme, ..s.settings },
            ..s
        },
        Act::ChoosePet { pet_id } => SessionView {
            settings: SettingsView { pet_id, ..s.settings },
            ..s
        },
        Act::ChooseDir { dir } => SessionView {
            settings: SettingsView { custom_pet_dir: Some(dir), ..s.settings },
            ..s
        },
        Act::ChooseSort { by_use } => SessionView {
            settings: SettingsView { sort_by_use: by_use, ..s.settings },
            ..s
        },
        Act::ChooseAutoCheck { on } => SessionView {
            settings: SettingsView { auto_check_update: on, ..s.settings },
            ..s
        },
        Act::MovePet { x, y } => SessionView {
            settings: SettingsView { pet_pos: Some((x, y)), ..s.settings },
            ..s
        },
        Act::ShowSettings => crate::page::settled(s),
    }
}

proof fn lemma_active_is_in_sync(s: SessionView, idx: int)
    requires
        0 <= idx,
    ensures
        s.with_active(idx).in_sync(),
{
}

proof fn lemma_in_sync_by_ids(s: SessionView, t: SessionView)
    requires
        s.in_sync(),
        t.settings.last_group == s.settings.last_group,
        t.active_group == s.active_group,
        t.groups.len() == s.groups.len(),
        forall|i: int| 0 <= i < s.groups.len() ==> (#[trigger] t.groups[i]).id == s.groups[i].id,
    ensures
        t.in_sync(),
{
}

/// What is done shows another group.
spec fn is_choice(act: Act) -> bool {
    match act {
        Act::Select { .. } => true,
        Act::DropGroup { .. } => true,
        Act::AddGroup { .. } => true,
        Act::DeleteGroup => true,
        Act::Import { .. } => true,
        _ => false,
    }
}

proof fn lemma_choice_is_in_sync(s: SessionView, act: Act)
    requires
        is_choice(act),
    ensures
        acted(s, act) == s || acted(s, act).in_sync(),
{
    reveal(acted);
    match act {
        Act::Select { idx } => {
            if 0 <= idx {
                lemma_active_is_in_sync(s, idx);
            }
        },
        Act::DropGroup { from, to } => {
            let len = s.groups.len() as int;
            if len > 0 {
                lemma_active_is_in_sync(
                    SessionView {
                        groups: moved(s.groups, place(from, len), place(to, len)),
                        ..s
                    },
                    place(to, len),
                );
            }
        },
        Act::AddGroup { id } => {
            if s.groups.len() < MAX_GROUPS {
                let more = SessionView { groups: acted(s, act).groups, ..s };
                lemma_active_is_in_sync(more, s.groups.len() as int);
            }
        },
        Act::DeleteGroup => {
            if 0 <= s.active_group < s.groups.len() {
                lemma_active_is_in_sync(
                    SessionView { groups: s.groups.remove(s.active_group), ..s },
                    0,
                );
            } else {
                lemma_active_is_in_sync(s, 0);
            }
        },
        Act::Import { new, safe } => {
            lemma_active_is_in_sync(SessionView { groups: new, last_deleted: None, ..s }, 0);
        },
        _ => {},
    }
}

/// Whatever shows no other group leaves the groups where they are.
proof fn lemma_no_choice_keeps_ids(s: SessionView, act: Act)
    requires
        0 <= s.active_group,
        !is_choice(act),
    ensures
        act is ShowSettings || {
            &&& acted(s, act).settings.last_group == s.settings.last_group
            &&& acted(s, act).active_group == s.active_group
        },
        acted(s, act).groups.len() == s.groups.len(),
        forall|i: int|
            0 <= i < s.groups.len() ==> (#[trigger] acted(s, act).groups[i]).id == s.groups[i].id,
{
    reveal(acted);
    match act {
        Act::Delete { .. } => {},
        Act::Undo => {},
        Act::SaveEditor { .. } => {},
        Act::AddPhrase { .. } => {},
        Act::EditPhrase { .. } => {},
        Act::DropPhrase { .. } => {},
        Act::RenameGroup { .. } => {},
        Act::SetIcon { .. } => {},
        Act::Copy { .. } => {},
        _ => {},
    }
}

/// The group that is shown stays the one that the settings name, whatever is
/// done.
pub proof fn the_group_shown_is_the_one_kept(s: SessionView, act: Act)
    requires
        s.in_sync(),
    ensures
        acted(s, act).in_sync(),
{
    assert(act is ShowSettings ==> acted(s, act) == crate::page::settled(s)) by {
        reveal(acted);
    }
    if is_choice(act) {
        lemma_choice_is_in_sync(s, act);
    } else {
        lemma_no_choice_keeps_ids(s, act);
        lemma_in_sync_by_ids(s, acted(s, act));
    }
}

/// When the program starts again it shows the group that it showed when it
/// ended, as long as the ids tell the groups apart.
pub proof fn the_group_shown_is_shown_again(s: SessionView)
    requires
        s.in_sync(),
        ids_tell_apart(s.groups),
    ensures
        restored_group(s.groups, s.settings.last_group) == s.active_group,
{
    let groups = s.groups;
    let last = s.settings.last_group;
    if groups.len() > 0 {
        let a = s.active_group;
        assert(Some(groups[a].id) == last);
        assert forall|k: int| 0 <= k < a implies Some((#[trigger] groups[k]).id) != last by {
            assert(is_place(groups, k, -1) && is_place(groups, a, -1));
            assert(id_at(groups, k, -1) == groups[k].id && id_at(groups, a, -1) == groups[a].id);
        }
        let c = choose|c: int|
            0 <= c < groups.len() && Some((#[trigger] groups[c]).id) == last && forall|k: int|
                0 <= k < c ==> Some((#[trigger] groups[k]).id) != last;
        assert(c == a);
    }
}

/// Where there is a group of that id, there is a first one.
pub proof fn lemma_first_of_id(groups: Seq<GroupView>, last: Option<Seq<char>>, i: int)
    requires
        0 <= i < groups.len(),
        Some(groups[i].id) == last,
    ensures
        exists|c: int|
            0 <= c < groups.len() && Some((#[trigger] groups[c]).id) == last && forall|k: int|
                0 <= k < c ==> Some((#[trigger] groups[k]).id) != last,
    decreases i,
{
    if exists|k: int| 0 <= k < i && Some((#[trigger] groups[k]).id) == last {
        let k = choose|k: int| 0 <= k < i && Some((#[trigger] groups[k]).id) == last;
        lemma_first_of_id(groups, last, k);
    }
}

/// Which group is shown at the start depends on the ids alone.
proof fn lemma_restored_by_ids(a: Seq<GroupView>, b: Seq<GroupView>, last: Option<Seq<char>>)
    requires
        a.len() == b.len(),
        forall|i: int| 0 <= i < a.len() ==> (#[trigger] b[i]).id == a[i].id,
    ensures
        restored_group(a, last) == restored_group(b, last),
        0 <= restored_group(a, last),
        a.len() > 0 ==> restored_group(a, last) < a.len(),
{
    if exists|i: int| 0 <= i < a.len() && Some((#[trigger] a[i]).id) == last {
        let i = choose|i: int| 0 <= i < a.len() && Some((#[trigger] a[i]).id) == last;
        lemma_first_of_id(a, last, i);
        assert(Some(b[i].id) == last);
        lemma_first_of_id(b, last, i);
        let c = restored_group(a, last);
        let d = restored_group(b, last);
        assert(a[c].id == b[c].id && a[d].id == b[d].id);
    } else {
        assert forall|i: int| 0 <= i < b.len() implies Some((#[trigger] b[i]).id) != last by {
            assert(a[i].id == b[i].id);
        }
    }
}

/// The program, started again, would show the group that it shows.
pub open spec fn comes_back(s: SessionView) -> bool {
    restored_group(s.groups, s.settings.last_group) == s.active_group
}

/// Whatever is done, the program would show the group that it shows if it were
/// started again; a session starts out that way. The ids must tell things apart
/// once it is done.
pub proof fn a_restart_shows_the_same_group(s: SessionView, act: Act)
    requires
        comes_back(s),
        ids_tell_apart(acted(s, act).groups),
    ensures
        comes_back(acted(s, act)),
{
    assert(act is ShowSettings ==> acted(s, act) == crate::page::settled(s)) by {
        reveal(acted);
    }
    lemma_restored_by_ids(s.groups, s.groups, s.settings.last_group);
    if is_choice(act) {
        lemma_choice_is_in_sync(s, act);
        if acted(s, act) != s {
            the_group_shown_is_shown_again(acted(s, act));
        }
    } else {
        lemma_no_choice_keeps_ids(s, act);
        lemma_settled(s);
        lemma_comes_back_by_ids(s, acted(s, act));
    }
}

proof fn lemma_comes_back_by_ids(s: SessionView, t: SessionView)
    requires
        comes_back(s),
        t.settings.last_group == s.settings.last_group,
        t.active_group == s.active_group,
        t.groups.len() == s.groups.len(),
        forall|i: int| 0 <= i < s.groups.len() ==> (#[trigger] t.groups[i]).id == s.groups[i].id,
    ensures
        comes_back(t),
{
    lemma_restored_by_ids(s.groups, t.groups, s.settings.last_group);
}

/// Where the group that is shown would come back, the settings show it too.
proof fn lemma_settled(s: SessionView)
    requires
        comes_back(s),
    ensures
        crate::page::settled(s) == s,
{
    lemma_restored_by_ids(s.groups, s.groups, s.settings.last_group);
}

/// What was deleted comes back as it was, to where it was.
pub proof fn undo_brings_back_what_was_deleted(s: SessionView, gi: usize, pi: usize)
    requires
        s.has_phrase(gi as int, pi as int),
    ensures
        s.deleted(gi as int, pi as int).can_undo(),
        s.deleted(gi as int, pi as int).undone() == (SessionView { last_deleted: None, ..s }),
{
    let phrases = s.groups[gi as int].phrases;
    assert(phrases.remove(pi as int).insert(pi as int, phrases[pi as int]) =~= phrases);
    assert(s.deleted(gi as int, pi as int).undone().groups =~= s.groups);
}

/// What is brought back is never lost: it is in the group it was in, or in the
/// last one if there are fewer groups by now.
pub proof fn undo_loses_nothing(s: SessionView)
    requires
        s.can_undo(),
    ensures
        ({
            let gi = place((s.last_deleted->0).0 as int, s.groups.len() as int);
            let p = (s.last_deleted->0).2;
            &&& s.undone().groups.len() == s.groups.len()
            &&& s.undone().groups[gi].phrases.contains(p)
            &&& s.undone().groups[gi].phrases.len() == s.groups[gi].phrases.len() + 1
            &&& s.undone().groups[gi].phrases.to_multiset() == s.groups[gi].phrases.to_multiset().insert(p)
        }),
{
    let (g0, p0, p) = s.last_deleted->0;
    let gi = place(g0 as int, s.groups.len() as int);
    let phrases = s.groups[gi].phrases;
    let pi = if p0 < phrases.len() {
        p0 as int
    } else {
        phrases.len() as int
    };
    assert(phrases.insert(pi, p)[pi] == p);
    vstd::seq_lib::to_multiset_insert(phrases, pi, p);
}

/// Dragging something back to where it came from undoes the drag.
pub proof fn dragging_back_undoes<T>(s: Seq<T>, from: int, to: int)
    requires
        0 <= from < s.len(),
        0 <= to < s.len(),
    ensures
        moved(moved(s, from, to), to, from) == s,
{
    assert(moved(moved(s, from, to), to, from) =~= s);
}

/// A drag loses nothing and makes nothing up, and puts what was dragged where it
/// was dropped.
pub proof fn dragging_keeps_everything<T>(s: Seq<T>, from: int, to: int)
    requires
        0 <= from < s.len(),
        0 <= to < s.len(),
    ensures
        moved(s, from, to).to_multiset() == s.to_multiset(),
        moved(s, from, to).len() == s.len(),
        moved(s, from, to)[to] == s[from],
{
    let rest = s.remove(from);
    vstd::seq_lib::to_multiset_insert(rest, to, s[from]);
    vstd::seq_lib::to_multiset_insert(rest, from, s[from]);
    assert(rest.insert(from, s[from]) =~= s);
}

/// A group that is not too large in any way.
spec fn fits(g: GroupView) -> bool {
    g.phrases.len() <= MAX_PHRASES_PER_GROUP && crate::import::within_length(g.phrases)
}

proof fn lemma_limits_by_group(s: SessionView, t: SessionView, gi: int, g: GroupView)
    requires
        s.within_limits(),
        0 <= gi < s.groups.len(),
        fits(g),
        t.groups == s.groups.update(gi, g),
    ensures
        t.within_limits(),
{
    assert forall|i: int| 0 <= i < t.groups.len() implies (#[trigger] t.groups[i]).phrases.len()
        <= MAX_PHRASES_PER_GROUP && crate::import::within_length(t.groups[i].phrases) by {
        if i != gi {
            assert(t.groups[i] == s.groups[i]);
        }
    }
}

/// A phrase may be brought back without its group getting too large.
pub open spec fn room_to_undo(s: SessionView) -> bool {
    s.can_undo() ==> {
        let gi = place((s.last_deleted->0).0 as int, s.groups.len() as int);
        s.groups[gi].phrases.len() < MAX_PHRASES_PER_GROUP
    }
}

proof fn lemma_limits_saved(s: SessionView, text: Seq<char>, id: Seq<char>)
    requires
        s.within_limits(),
    ensures
        s.editor_saved(text, id).0.within_limits(),
        s.editor_saved(text, id).0.last_deleted == s.last_deleted,
{
    let t = s.editor_saved(text, id).0;
    if t.groups != s.groups {
        let gi = (s.pending_edit->0).0 as int;
        assert(fits(s.groups[gi]));
        lemma_limits_by_group(s, t, gi, t.groups[gi]);
    }
}

proof fn lemma_limits_dragged(s: SessionView, from: int, to: int)
    requires
        s.within_limits(),
    ensures
        s.group_dropped(from, to).0.within_limits(),
        s.group_dropped(from, to).0.last_deleted == s.last_deleted,
{
    let t = s.group_dropped(from, to).0;
    assert forall|i: int| 0 <= i < t.groups.len() implies fits(#[trigger] t.groups[i]) by {
        assert(s.groups.contains(t.groups[i]));
    }
}

proof fn lemma_limits_kept(s: SessionView, act: Act)
    requires
        0 <= s.active_group,
        s.within_limits(),
        s.last_deleted matches Some(d) ==> d.2.text.len() <= MAX_TEXT_CHARS,
        act is Undo ==> room_to_undo(s),
        act matches Act::Import { new, safe } ==> crate::import::sanitized(new).fault is None,
    ensures
        acted(s, act).within_limits(),
        acted(s, act).last_deleted matches Some(d) ==> d.2.text.len() <= MAX_TEXT_CHARS,
{
    reveal(acted);
    let t = acted(s, act);
    let gs = s.groups;
    let a = s.active_group;
    match act {
        Act::Delete { gi, pi } => {
            if s.has_phrase(gi, pi) {
                assert(fits(gs[gi]));
                lemma_limits_by_group(s, t, gi, t.groups[gi]);
            }
        },
        Act::Undo => {
            if s.can_undo() {
                let gi = place((s.last_deleted->0).0 as int, gs.len() as int);
                assert(fits(gs[gi]));
                lemma_limits_by_group(s, t, gi, t.groups[gi]);
            }
        },
        Act::SaveEditor { text, id } => {
            lemma_limits_saved(s, text, id);
        },
        Act::AddPhrase { text, id } => {
            if t.groups != gs {
                assert(fits(gs[a]));
                lemma_limits_by_group(s, t, a, t.groups[a]);
            }
        },
        Act::EditPhrase { i, text } => {
            if t.groups != gs {
                assert(fits(gs[a]));
                lemma_limits_by_group(s, t, a, t.groups[a]);
            }
        },
        Act::DropPhrase { from, to } => {
            if t.groups != gs {
                assert(fits(gs[a]));
                lemma_limits_by_group(s, t, a, t.groups[a]);
            }
        },
        Act::DropGroup { from, to } => {
            lemma_limits_dragged(s, from, to);
        },
        Act::AddGroup { id } => {
            assert forall|i: int| 0 <= i < t.groups.len() implies fits(#[trigger] t.groups[i]) by {
                if i < gs.len() {
                    assert(t.groups[i] == gs[i]);
                }
            }
        },
        Act::RenameGroup { name } => {
            if t.groups != gs {
                assert(fits(gs[a]));
                lemma_limits_by_group(s, t, a, t.groups[a]);
            }
        },
        Act::SetIcon { i } => {
            if t.groups != gs {
                assert(fits(gs[a]));
                lemma_limits_by_group(s, t, a, t.groups[a]);
            }
        },
        Act::DeleteGroup => {
            assert forall|i: int| 0 <= i < t.groups.len() implies fits(#[trigger] t.groups[i]) by {
                assert(gs.contains(t.groups[i]));
            }
        },
        Act::Import { new, safe } => {
            crate::import::only_size_is_refused(new);
        },
        Act::Copy { gi, pi } => {
            if s.has_phrase(gi, pi) {
                assert(fits(gs[gi]));
                lemma_limits_by_group(s, t, gi, t.groups[gi]);
            }
        },
        _ => {},
    }
}

/// Whatever is done, data that could be taken in again can still be: nothing the
/// program lets the user do makes it too large. Two things are left out: to
/// bring back a phrase to a group that has filled up since, and to take in data
/// that is too large itself. The phrase that was deleted must have been short
/// enough.
pub proof fn nothing_grows_too_large(s: SessionView, act: Act)
    requires
        0 <= s.active_group,
        s.within_limits(),
        s.last_deleted matches Some(d) ==> d.2.text.len() <= MAX_TEXT_CHARS,
        act is Undo ==> room_to_undo(s),
        act matches Act::Import { new, safe } ==> crate::import::sanitized(new).fault is None,
    ensures
        acted(s, act).within_limits(),
        acted(s, act).last_deleted matches Some(d) ==> d.2.text.len() <= MAX_TEXT_CHARS,
        crate::import::sanitized(acted(s, act).groups).fault is None,
{
    lemma_limits_kept(s, act);
    crate::import::only_size_is_refused(acted(s, act).groups);
}

/// Something has that id.
pub open spec fn has_id(groups: Seq<GroupView>, id: Seq<char>) -> bool {
    exists|gi: int, pi: int| is_place(groups, gi, pi) && #[trigger] id_at(groups, gi, pi) == id
}

/// The data may be taken in as it is, and what was deleted last may be brought
/// back to it.
pub open spec fn tidy(s: SessionView) -> bool {
    &&& clean(s.groups)
    &&& s.last_deleted matches Some(d) ==> {
        &&& clean_phrase(d.2)
        &&& !crate::text::is_blank(d.2.id)
        &&& !has_id(s.groups, d.2.id)
    }
}

/// An id that says something and that nothing has, nor had when it was deleted.
pub open spec fn is_new_id(s: SessionView, id: Seq<char>) -> bool {
    &&& !crate::text::is_blank(id)
    &&& !has_id(s.groups, id)
    &&& s.last_deleted matches Some(d) ==> d.2.id != id
}

/// If everything in `new`, but for what is at `added`, was in `was` at a place of
/// its own, and what is at `added` has an id that nothing had, then the ids tell
/// things apart in `new` as they did in `was`.
proof fn lemma_still_apart(
    was: Seq<GroupView>,
    new: Seq<GroupView>,
    from: spec_fn(int, int) -> (int, int),
    added: (int, int),
)
    requires
        ids_tell_apart(was),
        forall|gi: int, pi: int|
            is_place(new, gi, pi) && (gi, pi) != added ==> is_place(
                was,
                from(gi, pi).0,
                from(gi, pi).1,
            ) && id_at(was, from(gi, pi).0, from(gi, pi).1) == #[trigger] id_at(new, gi, pi),
        forall|gi: int, pi: int, gj: int, pj: int|
            #![trigger id_at(new, gi, pi), id_at(new, gj, pj)]
            is_place(new, gi, pi) && is_place(new, gj, pj) && (gi, pi) != added && (gj, pj) != added
                && from(gi, pi) == from(gj, pj) ==> gi == gj && pi == pj,
        is_place(new, added.0, added.1) ==> !has_id(was, id_at(new, added.0, added.1))
            && !crate::text::is_blank(id_at(new, added.0, added.1)),
    ensures
        ids_tell_apart(new),
        forall|x: Seq<char>|
            #[trigger] has_id(new, x) ==> has_id(was, x) || is_place(new, added.0, added.1) && x
                == id_at(new, added.0, added.1),
{
    assert forall|gi: int, pi: int, gj: int, pj: int|
        #![trigger id_at(new, gi, pi), id_at(new, gj, pj)]
        is_place(new, gi, pi) && is_place(new, gj, pj) && id_at(new, gi, pi) == id_at(
            new,
            gj,
            pj,
        ) implies gi == gj && pi == pj by {
        let (fi, fj) = (from(gi, pi), from(gj, pj));
        if (gi, pi) != added && (gj, pj) != added {
            assert(id_at(was, fi.0, fi.1) == id_at(was, fj.0, fj.1));
        } else if (gi, pi) != added {
            assert(id_at(was, fi.0, fi.1) == id_at(new, added.0, added.1));
        } else if (gj, pj) != added {
            assert(id_at(was, fj.0, fj.1) == id_at(new, added.0, added.1));
        }
    }
    assert forall|gi: int, pi: int| is_place(new, gi, pi) implies !crate::text::is_blank(
        #[trigger] id_at(new, gi, pi),
    ) by {
        if (gi, pi) != added {
            let f = from(gi, pi);
            assert(id_at(was, f.0, f.1) == id_at(new, gi, pi));
        }
    }
    assert forall|x: Seq<char>| #[trigger] has_id(new, x) implies has_id(was, x) || is_place(
        new,
        added.0,
        added.1,
    ) && x == id_at(new, added.0, added.1) by {
        let (gi, pi) = choose|gi: int, pi: int|
            is_place(new, gi, pi) && #[trigger] id_at(new, gi, pi) == x;
        if (gi, pi) != added {
            let f = from(gi, pi);
            assert(id_at(was, f.0, f.1) == x);
        }
    }
}

/// Nothing is there.
spec fn nowhere() -> (int, int) {
    (-1, -1)
}

/// The groups differ in one group, which is clean, and in no id.
proof fn lemma_tidy_by_group(s: SessionView, t: SessionView, gi: int)
    requires
        tidy(s),
        0 <= gi < s.groups.len(),
        t.groups == s.groups.update(gi, t.groups[gi]),
        t.last_deleted == s.last_deleted,
        clean_group(t.groups[gi]),
        t.groups[gi].id == s.groups[gi].id,
        t.groups[gi].phrases.len() == s.groups[gi].phrases.len(),
        forall|i: int|
            0 <= i < s.groups[gi].phrases.len() ==> (#[trigger] t.groups[gi].phrases[i]).id
                == s.groups[gi].phrases[i].id,
    ensures
        tidy(t),
{
    assert forall|i: int| 0 <= i < t.groups.len() implies clean_group(#[trigger] t.groups[i]) by {
        if i != gi {
            assert(t.groups[i] == s.groups[i]);
        }
    }
    assert forall|g: int, p: int| is_place(t.groups, g, p) implies is_place(s.groups, g, p)
        && #[trigger] id_at(t.groups, g, p) == id_at(s.groups, g, p) by {
        if g != gi {
            assert(t.groups[g] == s.groups[g]);
        } else if p >= 0 {
            assert(t.groups[gi].phrases[p].id == s.groups[gi].phrases[p].id);
        }
    }
    lemma_still_apart(s.groups, t.groups, |g: int, p: int| (g, p), nowhere());
}

proof fn lemma_tidy_deleted(s: SessionView, gi: int, pi: int)
    requires
        tidy(s),
    ensures
        tidy(s.deleted(gi, pi)),
{
    if s.has_phrase(gi, pi) {
        let t = s.deleted(gi, pi);
        let phrases = s.groups[gi].phrases;
        let p = phrases[pi];
        assert(clean_group(s.groups[gi]));
        assert(clean_phrase(p));
        assert forall|i: int| 0 <= i < t.groups.len() implies clean_group(
            #[trigger] t.groups[i],
        ) by {
            if i != gi {
                assert(t.groups[i] == s.groups[i]);
            } else {
                assert forall|k: int| 0 <= k < t.groups[gi].phrases.len() implies clean_phrase(
                    #[trigger] t.groups[gi].phrases[k],
                ) by {
                    assert(clean_phrase(
                        phrases[if k < pi {
                            k
                        } else {
                            k + 1
                        }],
                    ));
                }
            }
        }
        let from = |g: int, k: int|
            if g == gi && k >= pi {
                (g, k + 1)
            } else {
                (g, k)
            };
        assert forall|g: int, k: int| is_place(t.groups, g, k) implies is_place(
            s.groups,
            from(g, k).0,
            from(g, k).1,
        ) && id_at(s.groups, from(g, k).0, from(g, k).1) == #[trigger] id_at(t.groups, g, k) by {
            if g != gi {
                assert(t.groups[g] == s.groups[g]);
            }
        }
        lemma_still_apart(s.groups, t.groups, from, nowhere());
        assert(is_place(s.groups, gi, pi));
        assert(id_at(s.groups, gi, pi) == p.id);
        if has_id(t.groups, p.id) {
            let (g, k) = choose|g: int, k: int|
                is_place(t.groups, g, k) && #[trigger] id_at(t.groups, g, k) == p.id;
            let f = from(g, k);
            assert(id_at(s.groups, f.0, f.1) == id_at(s.groups, gi, pi));
        }
    }
}

/// A phrase put into a group that has room for it.
proof fn lemma_tidy_inserted(s: SessionView, t: SessionView, gi: int, pi: int, p: PhraseView)
    requires
        tidy(s),
        0 <= gi < s.groups.len(),
        0 <= pi <= s.groups[gi].phrases.len() < MAX_PHRASES_PER_GROUP,
        t.groups == with_phrases(s.groups, gi, s.groups[gi].phrases.insert(pi, p)),
        clean_phrase(p),
        !crate::text::is_blank(p.id),
        !has_id(s.groups, p.id),
        t.last_deleted is None || t.last_deleted == s.last_deleted && (s.last_deleted->0).2.id
            != p.id,
    ensures
        tidy(t),
{
    let phrases = s.groups[gi].phrases;
    assert(clean_group(s.groups[gi]));
    assert forall|i: int| 0 <= i < t.groups.len() implies clean_group(#[trigger] t.groups[i]) by {
        if i != gi {
            assert(t.groups[i] == s.groups[i]);
        } else {
            assert forall|k: int| 0 <= k < t.groups[gi].phrases.len() implies clean_phrase(
                #[trigger] t.groups[gi].phrases[k],
            ) by {
                if k < pi {
                    assert(clean_phrase(phrases[k]));
                } else if k > pi {
                    assert(clean_phrase(phrases[k - 1]));
                }
            }
        }
    }
    let from = |g: int, k: int|
        if g == gi && k > pi {
            (g, k - 1)
        } else {
            (g, k)
        };
    assert forall|g: int, k: int| is_place(t.groups, g, k) && (g, k) != (gi, pi) implies is_place(
        s.groups,
        from(g, k).0,
        from(g, k).1,
    ) && id_at(s.groups, from(g, k).0, from(g, k).1) == #[trigger] id_at(t.groups, g, k) by {
        if g != gi {
            assert(t.groups[g] == s.groups[g]);
        }
    }
    assert(id_at(t.groups, gi, pi) == p.id);
    lemma_still_apart(s.groups, t.groups, from, (gi, pi));
}

/// The place that something came from that a drag has put at `k`.
spec fn before_drag(from: int, to: int, k: int) -> int {
    if k == to {
        from
    } else {
        let j = if k > to {
            k - 1
        } else {
            k
        };
        if j < from {
            j
        } else {
            j + 1
        }
    }
}

proof fn lemma_before_drag<T>(s: Seq<T>, from: int, to: int)
    requires
        0 <= from < s.len(),
        0 <= to < s.len(),
    ensures
        moved(s, from, to).len() == s.len(),
        forall|k: int|
            0 <= k < s.len() ==> 0 <= #[trigger] before_drag(from, to, k) < s.len() && moved(
                s,
                from,
                to,
            )[k] == s[before_drag(from, to, k)],
        forall|k: int, l: int|
            0 <= k < s.len() && 0 <= l < s.len() && #[trigger] before_drag(from, to, k)
                == #[trigger] before_drag(from, to, l) ==> k == l,
{
}

proof fn lemma_tidy_phrase_dragged(s: SessionView, t: SessionView, gi: int, a: int, b: int)
    requires
        tidy(s),
        0 <= gi < s.groups.len(),
        0 <= a < s.groups[gi].phrases.len(),
        0 <= b < s.groups[gi].phrases.len(),
        t.groups == with_phrases(s.groups, gi, moved(s.groups[gi].phrases, a, b)),
        t.last_deleted == s.last_deleted,
    ensures
        tidy(t),
{
    let phrases = s.groups[gi].phrases;
    lemma_before_drag(phrases, a, b);
    assert(clean_group(s.groups[gi]));
    assert forall|i: int| 0 <= i < t.groups.len() implies clean_group(#[trigger] t.groups[i]) by {
        if i != gi {
            assert(t.groups[i] == s.groups[i]);
        } else {
            assert forall|k: int| 0 <= k < t.groups[gi].phrases.len() implies clean_phrase(
                #[trigger] t.groups[gi].phrases[k],
            ) by {
                assert(clean_phrase(phrases[before_drag(a, b, k)]));
            }
        }
    }
    let from = |g: int, k: int|
        if g == gi && k >= 0 {
            (g, before_drag(a, b, k))
        } else {
            (g, k)
        };
    assert forall|g: int, k: int| is_place(t.groups, g, k) implies is_place(
        s.groups,
        from(g, k).0,
        from(g, k).1,
    ) && id_at(s.groups, from(g, k).0, from(g, k).1) == #[trigger] id_at(t.groups, g, k) by {
        if g != gi {
            assert(t.groups[g] == s.groups[g]);
        } else if k >= 0 {
            assert(t.groups[gi].phrases[k] == phrases[before_drag(a, b, k)]);
        }
    }
    lemma_still_apart(s.groups, t.groups, from, nowhere());
}

proof fn lemma_tidy_group_dragged(s: SessionView, t: SessionView, a: int, b: int)
    requires
        tidy(s),
        0 <= a < s.groups.len(),
        0 <= b < s.groups.len(),
        t.groups == moved(s.groups, a, b),
        t.last_deleted == s.last_deleted,
    ensures
        tidy(t),
{
    lemma_before_drag(s.groups, a, b);
    assert forall|i: int| 0 <= i < t.groups.len() implies clean_group(#[trigger] t.groups[i]) by {
        assert(clean_group(s.groups[before_drag(a, b, i)]));
    }
    let from = |g: int, k: int| (before_drag(a, b, g), k);
    assert forall|g: int, k: int| is_place(t.groups, g, k) implies is_place(
        s.groups,
        from(g, k).0,
        from(g, k).1,
    ) && id_at(s.groups, from(g, k).0, from(g, k).1) == #[trigger] id_at(t.groups, g, k) by {
        assert(t.groups[g] == s.groups[before_drag(a, b, g)]);
    }
    lemma_still_apart(s.groups, t.groups, from, nowhere());
}

proof fn lemma_tidy_group_added(s: SessionView, t: SessionView, g: GroupView)
    requires
        tidy(s),
        s.groups.len() < MAX_GROUPS,
        t.groups == s.groups.push(g),
        t.last_deleted == s.last_deleted,
        is_new_id(s, g.id),
        g.phrases.len() == 0,
        clean_group(g),
    ensures
        tidy(t),
{
    let n = s.groups.len() as int;
    assert forall|i: int| 0 <= i < t.groups.len() implies clean_group(#[trigger] t.groups[i]) by {
        if i < n {
            assert(t.groups[i] == s.groups[i]);
        }
    }
    assert forall|gi: int, k: int|
        is_place(t.groups, gi, k) && (gi, k) != (n, -1int) implies is_place(s.groups, gi, k)
        && id_at(s.groups, gi, k) == #[trigger] id_at(t.groups, gi, k) by {
        if gi < n {
            assert(t.groups[gi] == s.groups[gi]);
        }
    }
    assert(id_at(t.groups, n, -1) == g.id);
    lemma_still_apart(s.groups, t.groups, |gi: int, k: int| (gi, k), (n, -1int));
}

proof fn lemma_tidy_group_removed(s: SessionView, t: SessionView, a: int)
    requires
        tidy(s),
        0 <= a < s.groups.len(),
        t.groups == s.groups.remove(a),
        t.last_deleted == s.last_deleted,
    ensures
        tidy(t),
{
    let from = |g: int, k: int|
        (
            if g < a {
                g
            } else {
                g + 1
            },
            k,
        );
    assert forall|i: int| 0 <= i < t.groups.len() implies clean_group(#[trigger] t.groups[i]) by {
        assert(clean_group(s.groups[from(i, 0).0]));
    }
    assert forall|g: int, k: int| is_place(t.groups, g, k) implies is_place(
        s.groups,
        from(g, k).0,
        from(g, k).1,
    ) && id_at(s.groups, from(g, k).0, from(g, k).1) == #[trigger] id_at(t.groups, g, k) by {
        assert(t.groups[g] == s.groups[from(g, k).0]);
    }
    lemma_still_apart(s.groups, t.groups, from, nowhere());
}

/// Whatever is done, data that may be taken in as it is stays so: what the
/// program exports it takes in again unchanged. A new phrase or group must have
/// an id that is new, data taken in must be clean, and a phrase must not be
/// brought back to a group that has filled up since.
pub proof fn the_data_stays_clean(s: SessionView, act: Act)
    requires
        0 <= s.active_group,
        tidy(s),
        act matches Act::SaveEditor { text, id } ==> is_new_id(s, id),
        act matches Act::AddPhrase { text, id } ==> is_new_id(s, id),
        act matches Act::AddGroup { id } ==> is_new_id(s, id),
        act is Undo ==> room_to_undo(s),
        act matches Act::Import { new, safe } ==> clean(new),
    ensures
        tidy(acted(s, act)),
        crate::import::sanitized(acted(s, act).groups).fault is None,
        crate::import::sanitized(acted(s, act).groups).groups == acted(s, act).groups,
{
    reveal(acted);
    let t = acted(s, act);
    let gs = s.groups;
    let a = s.active_group;
    match act {
        Act::Delete { gi, pi } => {
            lemma_tidy_deleted(s, gi, pi);
        },
        Act::Undo => {
            if s.can_undo() {
                let (g0, p0, p) = s.last_deleted->0;
                let gi = place(g0 as int, gs.len() as int);
                let n = gs[gi].phrases.len();
                let pi = if p0 < n {
                    p0 as int
                } else {
                    n as int
                };
                lemma_tidy_inserted(s, t, gi, pi, p);
            }
        },
        Act::SaveEditor { text, id } => {
            lemma_tidy_saved(s, text, id);
        },
        Act::AddPhrase { text, id } => {
            if t.groups != gs {
                lemma_entered_text(text);
                lemma_tidy_added(s, t, a, id, crate::text::trimmed(text));
            }
        },
        Act::EditPhrase { i, text } => {
            if t.groups != gs {
                lemma_entered_text(text);
                lemma_tidy_retexted(s, t, a, i, crate::text::trimmed(text));
            }
        },
        Act::DropPhrase { from, to } => {
            if s.phrase_dropped(from, to).1 {
                let len = gs[a].phrases.len() as int;
                lemma_tidy_phrase_dragged(s, t, a, place(from, len), place(to, len));
            }
        },
        Act::DropGroup { from, to } => {
            if s.group_dropped(from, to).1 {
                let len = gs.len() as int;
                lemma_tidy_group_dragged(s, t, place(from, len), place(to, len));
            }
        },
        Act::AddGroup { id } => {
            if gs.len() < MAX_GROUPS {
                let g = t.groups.last();
                reveal_strlit("新分组");
                crate::text::lemma_trimmed_fixed("新分组"@);
                lemma_tidy_group_added(s, t, g);
            }
        },
        Act::RenameGroup { name } => {
            if t.groups != gs {
                crate::text::trimming_is_idempotent(name);
                assert(clean_group(gs[a]));
                lemma_tidy_by_group(s, t, a);
            }
        },
        Act::SetIcon { i } => {
            if t.groups != gs {
                assert(clean_group(gs[a]));
                lemma_tidy_by_group(s, t, a);
            }
        },
        Act::DeleteGroup => {
            if a < gs.len() {
                lemma_tidy_group_removed(s, t, a);
            }
        },
        Act::Copy { gi, pi } => {
            if s.has_phrase(gi, pi) {
                assert(clean_group(gs[gi]));
                assert forall|k: int| 0 <= k < gs[gi].phrases.len() implies clean_phrase(
                    #[trigger] t.groups[gi].phrases[k],
                ) by {
                    assert(clean_phrase(gs[gi].phrases[k]));
                }
                lemma_tidy_by_group(s, t, gi);
            }
        },
        _ => {},
    }
    crate::import::clean_data_is_kept(t.groups);
}

/// A trimmed text that is not empty is not blank.
proof fn lemma_entered_text(text: Seq<char>)
    requires
        crate::text::trimmed(text).len() > 0,
    ensures
        !crate::text::is_blank(crate::text::trimmed(text)),
{
    crate::text::trimming_is_idempotent(text);
    crate::text::lemma_trimmed(crate::text::trimmed(text));
}

proof fn lemma_tidy_added(
    s: SessionView,
    t: SessionView,
    gi: int,
    id: Seq<char>,
    text: Seq<char>,
)
    requires
        tidy(s),
        is_new_id(s, id),
        0 <= gi < s.groups.len(),
        !s.is_full(gi),
        t.groups == s.with_added(gi, id, text).groups,
        t.last_deleted == s.last_deleted,
        0 < text.len() <= MAX_TEXT_CHARS,
        !crate::text::is_blank(text),
    ensures
        tidy(t),
{
    let phrases = s.groups[gi].phrases;
    let p = crate::storage::new_phrase(id, text);
    assert(phrases.push(p) =~= phrases.insert(phrases.len() as int, p));
    lemma_tidy_inserted(s, t, gi, phrases.len() as int, p);
}

proof fn lemma_tidy_retexted(s: SessionView, t: SessionView, gi: int, pi: int, text: Seq<char>)
    requires
        tidy(s),
        s.has_phrase(gi, pi),
        t.groups == s.with_text(gi, pi, text).groups,
        t.last_deleted == s.last_deleted,
        text.len() <= MAX_TEXT_CHARS,
        !crate::text::is_blank(text),
    ensures
        tidy(t),
{
    assert(clean_group(s.groups[gi]));
    assert forall|k: int| 0 <= k < s.groups[gi].phrases.len() implies clean_phrase(
        #[trigger] t.groups[gi].phrases[k],
    ) by {
        assert(clean_phrase(s.groups[gi].phrases[k]));
    }
    lemma_tidy_by_group(s, t, gi);
}

proof fn lemma_tidy_saved(s: SessionView, text: Seq<char>, id: Seq<char>)
    requires
        tidy(s),
        is_new_id(s, id),
    ensures
        tidy(s.editor_saved(text, id).0),
{
    let t = s.editor_saved(text, id).0;
    if t.groups != s.groups {
        lemma_entered_text(text);
        let text = crate::text::trimmed(text);
        let (gi, target) = s.pending_edit->0;
        if target is Some {
            lemma_tidy_retexted(s, t, gi as int, target->0 as int, text);
        } else {
            lemma_tidy_added(s, t, gi as int, id, text);
        }
    }
}

/// A new user starts with data that may be taken in as it is, and a session on
/// it starts out tidy.
pub proof fn a_new_user_starts_tidy(s: SessionView)
    requires
        s.groups == crate::storage::default_groups(),
        s.last_deleted is None,
    ensures
        tidy(s),
{
    reveal_strlit("g-default");
    reveal_strlit("常用");
    reveal_strlit("p-1");
    reveal_strlit("p-2");
    reveal_strlit("p-3");
    reveal_strlit("收到,马上处理");
    reveal_strlit("好的,没问题");
    reveal_strlit("您好,感谢您的反馈,我们已经记录了这个问题,会尽快给您答复。");
    let g = s.groups[0];
    assert(s.groups.len() == 1 && g.phrases.len() == 3);
    crate::text::lemma_trimmed_fixed(g.name);
    assert forall|i: int| 0 <= i < 3 implies clean_phrase(#[trigger] g.phrases[i]) by {
        assert(!crate::text::is_white_space(g.phrases[i].text[0]));
    }
    assert forall|gi: int, pi: int| is_place(s.groups, gi, pi) implies {
        let id = #[trigger] id_at(s.groups, gi, pi);
        !crate::text::is_blank(id) && (pi == -1 ==> id.len() == 9) && (pi >= 0 ==> id.len() == 3
            && id[2] as int == '1' as int + pi)
    } by {
        let id = id_at(s.groups, gi, pi);
        assert(gi == 0 && (pi == -1 || pi == 0 || pi == 1 || pi == 2));
        assert(id[0] == 'g' || id[0] == 'p');
    }
}

} // verus!
