//! The phrases as the user works on them.

use crate::storage::{
    Group, GroupView, Phrase, PhraseData, PhraseView, Settings, SettingsView,
    MAX_GROUPS, MAX_PHRASES_PER_GROUP, MAX_TEXT_CHARS,
};
use crate::text::{in_decimal, same, trim};
use vstd::prelude::*;
use vstd::string::StrSliceExecFns;
use vstd::string::StringExecFns;

verus! {

/// Time for the user to bring back a phrase that was deleted, in milliseconds.
pub const UNDO_MS: u64 = 8 * 1000;

/// A phrase that the panel shows, and where it is kept.
#[derive(Debug, PartialEq)]
pub struct ItemRef {
    pub text: String,
    pub group_idx: usize,
    pub phrase_idx: usize,
}

/// What an `ItemRef` holds.
#[verifier::ext_equal]
pub struct ItemView {
    pub text: Seq<char>,
    pub group_idx: usize,
    pub phrase_idx: usize,
}

impl View for ItemRef {
    type V = ItemView;

    open spec fn view(&self) -> ItemView {
        ItemView { text: self.text@, group_idx: self.group_idx, phrase_idx: self.phrase_idx }
    }
}

/// What is done once the user confirms it.
#[derive(Debug, PartialEq)]
pub enum ConfirmAction {
    DeleteGroup,
    /// Data that was read and put right, to replace all there is.
    ImportReplace(PhraseData),
}

/// What a `ConfirmAction` is.
#[verifier::ext_equal]
pub enum ConfirmView {
    DeleteGroup,
    ImportReplace(Seq<GroupView>),
}

impl View for ConfirmAction {
    type V = ConfirmView;

    open spec fn view(&self) -> ConfirmView {
        match self {
            ConfirmAction::DeleteGroup => ConfirmView::DeleteGroup,
            ConfirmAction::ImportReplace(data) => ConfirmView::ImportReplace(data@),
        }
    }
}

/// The phrases, the settings, and what the user is about to do to them.
#[derive(Debug, PartialEq)]
pub struct Session {
    pub data: PhraseData,
    pub settings: Settings,
    /// The group that is shown.
    pub active_group: usize,
    /// What the panel shows.
    pub items: Vec<ItemRef>,
    /// What the editor is open on: a group, and the phrase to change or none to
    /// add one.
    pub pending_edit: Option<(usize, Option<usize>)>,
    pub confirm_action: Option<ConfirmAction>,
    /// The phrase deleted last, with the group and the place it was at.
    pub last_deleted: Option<(usize, usize, Phrase)>,
}

/// What a `Session` holds.
#[verifier::ext_equal]
pub struct SessionView {
    pub groups: Seq<GroupView>,
    pub settings: SettingsView,
    pub active_group: int,
    pub items: Seq<ItemView>,
    pub pending_edit: Option<(usize, Option<usize>)>,
    pub confirm_action: Option<ConfirmView>,
    pub last_deleted: Option<(usize, usize, PhraseView)>,
}

impl View for Session {
    type V = SessionView;

    open spec fn view(&self) -> SessionView {
        SessionView {
            groups: self.data@,
            settings: self.settings@,
            active_group: self.active_group as int,
            items: self.items@.map_values(|i: ItemRef| i@),
            pending_edit: self.pending_edit,
            confirm_action: match self.confirm_action {
                Some(a) => Some(a@),
                None => None,
            },
            last_deleted: match self.last_deleted {
                Some((gi, pi, p)) => Some((gi, pi, p@)),
                None => None,
            },
        }
    }
}

/// Groups with the phrases of one of them replaced.
pub open spec fn with_phrases(
    groups: Seq<GroupView>,
    gi: int,
    phrases: Seq<PhraseView>,
) -> Seq<GroupView> {
    groups.update(gi, GroupView { phrases, ..groups[gi] })
}

/// `s` with what was at `from` put at `to`.
pub open spec fn moved<T>(s: Seq<T>, from: int, to: int) -> Seq<T> {
    s.remove(from).insert(to, s[from])
}

/// The place in a list of `len` that was meant by `i`.
pub open spec fn place(i: int, len: int) -> int {
    if i < 0 {
        0
    } else if i > len - 1 {
        len - 1
    } else {
        i
    }
}

/// How many phrases the groups hold in all.
pub open spec fn phrase_total(groups: Seq<GroupView>) -> nat
    decreases groups.len(),
{
    if groups.len() == 0 {
        0
    } else {
        phrase_total(groups.drop_last()) + groups.last().phrases.len()
    }
}

/// What the user is told of a text that is too long; `what` says what was not
/// done.
pub open spec fn too_long(what: Seq<char>) -> Seq<char> {
    "⚠ 内容过长(上限 "@ + crate::text::decimal(MAX_TEXT_CHARS as nat) + " 字),"@ + what
}

/// What the user is told of a group that can hold no more.
pub open spec fn group_full() -> Seq<char> {
    "⚠ 该分组短语已达上限"@
}

/// What the user is told of a phrase that would have no text.
pub open spec fn text_missing() -> Seq<char> {
    "⚠ 内容不能为空,未修改"@
}

/// What came of something the user did.
#[derive(Debug, PartialEq)]
pub enum Edited {
    /// Nothing was done.
    Unchanged,
    /// It was refused, and this is what the user is told.
    Refused(String),
    /// It was done: the data is to be saved and shown again.
    Done,
}

/// What an `Edited` says.
#[verifier::ext_equal]
pub enum EditedView {
    Unchanged,
    Refused(Seq<char>),
    Done,
}

impl View for Edited {
    type V = EditedView;

    open spec fn view(&self) -> EditedView {
        match self {
            Edited::Unchanged => EditedView::Unchanged,
            Edited::Refused(m) => EditedView::Refused(m@),
            Edited::Done => EditedView::Done,
        }
    }
}

/// What the user is asked to confirm.
#[derive(Debug, PartialEq)]
pub struct Prompt {
    /// 0 to delete, 1 to replace.
    pub kind: i32,
    pub action_label: String,
    pub title: String,
    pub message: String,
}

/// What a `Prompt` says.
#[verifier::ext_equal]
pub struct PromptView {
    pub kind: i32,
    pub action_label: Seq<char>,
    pub title: Seq<char>,
    pub message: Seq<char>,
}

impl View for Prompt {
    type V = PromptView;

    open spec fn view(&self) -> PromptView {
        PromptView {
            kind: self.kind,
            action_label: self.action_label@,
            title: self.title@,
            message: self.message@,
        }
    }
}

/// What the user is asked before a group is deleted.
pub open spec fn delete_prompt(g: GroupView) -> PromptView {
    PromptView {
        kind: 0,
        action_label: "删除"@,
        title: "删除分组"@,
        message: "将删除「"@ + g.name + "」及其中 "@ + crate::text::decimal(g.phrases.len())
            + " 条常用语,此操作不可撤销。"@,
    }
}

/// What the user is asked before other data replaces all there is.
pub open spec fn import_prompt(new: Seq<GroupView>, current: Seq<GroupView>) -> PromptView {
    PromptView {
        kind: 1,
        action_label: "替换导入"@,
        title: "导入并替换"@,
        message: "将用文件内容(共 "@ + crate::text::decimal(new.len()) + " 组 "@
            + crate::text::decimal(phrase_total(new)) + " 条)替换当前全部常用语("@
            + crate::text::decimal(current.len()) + " 组 "@ + crate::text::decimal(
            phrase_total(current),
        ) + " 条)。\n当前数据会先备份为 phrases.pre-import.json。"@,
    }
}

/// What the user is told once other data has replaced all there was, or of why
/// it has not.
pub open spec fn import_notice(snapshot: Result<(), Seq<char>>) -> Seq<char> {
    match snapshot {
        Ok(_) => "已导入 ✓(原数据备份在 phrases.pre-import.json)"@,
        Err(e) => "⚠ 导入中止:备份当前数据失败("@ + e + ")"@,
    }
}

impl SessionView {
    /// There is such a phrase.
    pub open spec fn has_phrase(self, gi: int, pi: int) -> bool {
        0 <= gi < self.groups.len() && 0 <= pi < self.groups[gi].phrases.len()
    }

    /// The group that is shown is the one that the settings name, so that it is
    /// shown again when the program starts again.
    pub open spec fn in_sync(self) -> bool {
        if self.groups.len() == 0 {
            self.active_group == 0 && self.settings.last_group is None
        } else {
            &&& 0 <= self.active_group < self.groups.len()
            &&& self.settings.last_group == Some(self.groups[self.active_group].id)
        }
    }

    /// Nothing is so large that the data could not be taken in again.
    pub open spec fn within_limits(self) -> bool {
        &&& self.groups.len() <= MAX_GROUPS
        &&& forall|i: int|
            0 <= i < self.groups.len() ==> (#[trigger] self.groups[i]).phrases.len()
                <= MAX_PHRASES_PER_GROUP && crate::import::within_length(self.groups[i].phrases)
    }

    /// With the group at `idx` shown, or the last if there is none there.
    pub open spec fn with_active(self, idx: int) -> SessionView {
        let last = if self.groups.len() == 0 {
            0
        } else {
            self.groups.len() - 1
        };
        let idx = if idx < last {
            idx
        } else {
            last
        };
        SessionView {
            active_group: idx,
            settings: SettingsView {
                last_group: if 0 <= idx < self.groups.len() {
                    Some(self.groups[idx].id)
                } else {
                    None
                },
                ..self.settings
            },
            ..self
        }
    }

    /// With a phrase taken away and kept for the user to bring back; as it is
    /// where there is no such phrase.
    pub open spec fn deleted(self, gi: int, pi: int) -> SessionView {
        if self.has_phrase(gi, pi) {
            SessionView {
                groups: with_phrases(self.groups, gi, self.groups[gi].phrases.remove(pi)),
                last_deleted: Some((gi as usize, pi as usize, self.groups[gi].phrases[pi])),
                ..self
            }
        } else {
            self
        }
    }

    /// There is something to bring back, and somewhere to bring it.
    pub open spec fn can_undo(self) -> bool {
        self.last_deleted is Some && self.groups.len() > 0
    }

    /// With the phrase deleted last brought back, in its group and at its place
    /// as far as they are still there.
    pub open spec fn undone(self) -> SessionView {
        if self.can_undo() {
            let (gi, pi, p) = self.last_deleted->0;
            let gi = place(gi as int, self.groups.len() as int);
            let phrases = self.groups[gi].phrases;
            let pi = if pi < phrases.len() {
                pi as int
            } else {
                phrases.len() as int
            };
            SessionView {
                groups: with_phrases(self.groups, gi, phrases.insert(pi, p)),
                last_deleted: None,
                ..self
            }
        } else {
            SessionView { last_deleted: None, ..self }
        }
    }

    /// With the text of a phrase replaced; as it is where there is no such
    /// phrase.
    pub open spec fn with_text(self, gi: int, pi: int, text: Seq<char>) -> SessionView {
        if self.has_phrase(gi, pi) {
            let phrases = self.groups[gi].phrases;
            SessionView {
                groups: with_phrases(
                    self.groups,
                    gi,
                    phrases.update(pi, PhraseView { text, ..phrases[pi] }),
                ),
                ..self
            }
        } else {
            self
        }
    }

    /// With a new phrase at the end of a group.
    pub open spec fn with_added(self, gi: int, id: Seq<char>, text: Seq<char>) -> SessionView {
        SessionView {
            groups: with_phrases(
                self.groups,
                gi,
                self.groups[gi].phrases.push(crate::storage::new_phrase(id, text)),
            ),
            ..self
        }
    }

    /// A group can hold no more.
    pub open spec fn is_full(self, gi: int) -> bool {
        self.groups[gi].phrases.len() >= MAX_PHRASES_PER_GROUP
    }

    /// Saving `text` from the editor adds a phrase.
    pub open spec fn editor_adds(self, text: Seq<char>) -> bool {
        &&& 0 < crate::text::trimmed(text).len() <= MAX_TEXT_CHARS
        &&& self.pending_edit matches Some((gi, target)) && target is None && gi < self.groups.len()
            && !self.is_full(gi as int)
    }

    /// Adding `text` to the group that is shown adds a phrase.
    pub open spec fn phrase_adds(self, text: Seq<char>) -> bool {
        &&& 0 < crate::text::trimmed(text).len() <= MAX_TEXT_CHARS
        &&& self.active_group < self.groups.len()
        &&& !self.is_full(self.active_group)
    }

    /// The editor's text is to be saved: `id` is for a new phrase.
    pub open spec fn editor_saved(self, text: Seq<char>, id: Seq<char>) -> (
        SessionView,
        EditedView,
    ) {
        let text = crate::text::trimmed(text);
        let closed = SessionView { pending_edit: None, ..self };
        if text.len() == 0 {
            (self, EditedView::Unchanged)
        } else if text.len() > MAX_TEXT_CHARS {
            (self, EditedView::Refused(too_long("未保存"@)))
        } else if self.pending_edit is None {
            (self, EditedView::Unchanged)
        } else {
            let (gi, target) = self.pending_edit->0;
            if gi >= self.groups.len() {
                (closed, EditedView::Unchanged)
            } else if target is Some {
                (closed.with_text(gi as int, target->0 as int, text), EditedView::Done)
            } else if self.is_full(gi as int) {
                (closed, EditedView::Refused(group_full()))
            } else {
                (closed.with_added(gi as int, id, text), EditedView::Done)
            }
        }
    }

    /// A phrase is to be added to the group that is shown.
    pub open spec fn phrase_added(self, text: Seq<char>, id: Seq<char>) -> (
        SessionView,
        EditedView,
    ) {
        let text = crate::text::trimmed(text);
        if text.len() == 0 {
            (self, EditedView::Unchanged)
        } else if text.len() > MAX_TEXT_CHARS {
            (self, EditedView::Refused(too_long("未添加"@)))
        } else if self.active_group >= self.groups.len() {
            (self, EditedView::Done)
        } else if self.is_full(self.active_group) {
            (self, EditedView::Refused(group_full()))
        } else {
            (self.with_added(self.active_group, id, text), EditedView::Done)
        }
    }

    /// The text of a phrase of the group that is shown is to be replaced.
    pub open spec fn phrase_edited(self, i: int, text: Seq<char>) -> (SessionView, EditedView) {
        let text = crate::text::trimmed(text);
        if text.len() == 0 {
            (self, EditedView::Refused(text_missing()))
        } else if text.len() > MAX_TEXT_CHARS {
            (self, EditedView::Refused(too_long("未修改"@)))
        } else {
            (self.with_text(self.active_group, i, text), EditedView::Done)
        }
    }

    /// A group is dragged from one place to another; whether anything moves.
    pub open spec fn group_dropped(self, from: int, to: int) -> (SessionView, bool) {
        let len = self.groups.len() as int;
        let (from, to) = (place(from, len), place(to, len));
        if len == 0 || from == to {
            (self, false)
        } else {
            (SessionView { groups: moved(self.groups, from, to), ..self }.with_active(to), true)
        }
    }

    /// A phrase of the group that is shown is dragged from one place to another;
    /// whether anything moves.
    pub open spec fn phrase_dropped(self, from: int, to: int) -> (SessionView, bool) {
        if self.active_group >= self.groups.len() {
            (self, false)
        } else {
            let phrases = self.groups[self.active_group].phrases;
            let len = phrases.len() as int;
            let (from, to) = (place(from, len), place(to, len));
            if len == 0 || from == to {
                (self, false)
            } else {
                (
                    SessionView {
                        groups: with_phrases(
                            self.groups,
                            self.active_group,
                            moved(phrases, from, to),
                        ),
                        ..self
                    },
                    true,
                )
            }
        }
    }

    /// With a new, empty group, which is shown; as it is where there can be no
    /// more groups.
    pub open spec fn group_added(self, id: Seq<char>) -> (SessionView, bool) {
        if self.groups.len() >= MAX_GROUPS {
            (self, false)
        } else {
            let g = GroupView {
                id,
                name: "新分组"@,
                icon: Some("folder"@),
                phrases: Seq::empty(),
            };
            (
                SessionView { groups: self.groups.push(g), ..self }.with_active(
                    self.groups.len() as int,
                ),
                true,
            )
        }
    }

    /// With the group that is shown changed; as it is where there is none.
    pub open spec fn with_group(self, g: GroupView) -> SessionView {
        if 0 <= self.active_group < self.groups.len() {
            SessionView { groups: self.groups.update(self.active_group, g), ..self }
        } else {
            self
        }
    }

    /// The group that is shown gets a name; whether the name says anything.
    pub open spec fn group_renamed(self, name: Seq<char>) -> (SessionView, bool) {
        let name = crate::text::trimmed(name);
        if name.len() == 0 {
            (self, false)
        } else {
            (self.with_group(GroupView { name, ..self.groups[self.active_group] }), true)
        }
    }

    /// The group that is shown gets an icon.
    pub open spec fn group_icon_set(self, i: int) -> SessionView {
        self.with_group(
            GroupView {
                icon: Some(crate::icons::icon_keys()[crate::icons::icon_chosen(i)]),
                ..self.groups[self.active_group]
            },
        )
    }

    /// With the group that is shown gone, if there is one, and the first one
    /// shown.
    pub open spec fn group_deleted(self) -> SessionView {
        if 0 <= self.active_group < self.groups.len() {
            SessionView { groups: self.groups.remove(self.active_group), ..self }.with_active(0)
        } else {
            self.with_active(0)
        }
    }

    /// With other data in place of all there was, once that is safe elsewhere.
    pub open spec fn import_applied(self, new: Seq<GroupView>, safe: bool) -> SessionView {
        if safe {
            SessionView { groups: new, last_deleted: None, ..self }.with_active(0)
        } else {
            self
        }
    }

    /// With one more use of a phrase counted, if there is such a phrase and the
    /// count can go up.
    pub open spec fn copy_recorded(self, gi: int, pi: int) -> SessionView {
        if self.has_phrase(gi, pi) {
            let phrases = self.groups[gi].phrases;
            let p = phrases[pi];
            let use_count = if p.use_count < u32::MAX {
                (p.use_count + 1) as u32
            } else {
                p.use_count
            };
            SessionView {
                groups: with_phrases(
                    self.groups,
                    gi,
                    phrases.update(pi, PhraseView { use_count, ..p }),
                ),
                ..self
            }
        } else {
            self
        }
    }
}

/// The text that tells of a text that is too long.
fn too_long_text(what: &str) -> (r: String)
    ensures
        r@ == too_long(what@),
{
    let mut m = "⚠ 内容过长(上限 ".to_owned();
    m.append(in_decimal(MAX_TEXT_CHARS as u128).as_str());
    m.append(" 字),");
    m.append(what);
    m
}

/// How many phrases the groups hold in all.
fn count_phrases(data: &PhraseData) -> (r: u128)
    ensures
        r == phrase_total(data@),
{
    let ghost all = data@;
    let mut total: u128 = 0;
    for i in 0..data.groups.len()
        invariant
            all == data@,
            total == phrase_total(all.take(i as int)),
            total <= i * (usize::MAX as int),
            i <= data.groups@.len() <= usize::MAX,
    {
        proof {
            assert(all.take(i + 1).drop_last() =~= all.take(i as int));
            assert(all.take(i + 1).last() == data.groups@[i as int]@);
            let m = usize::MAX as int;
            assert(i * m + m == (i + 1) * m) by (nonlinear_arith);
            assert((i + 1) * m <= m * m) by (nonlinear_arith)
                requires
                    i + 1 <= m,
                    m >= 0,
            ;
            assert(m * m <= 0xffff_ffff_ffff_ffff * 0xffff_ffff_ffff_ffff) by (nonlinear_arith)
                requires
                    0 <= m <= 0xffff_ffff_ffff_ffff,
            ;
        }
        total = total + data.groups[i].phrases.len() as u128;
    }
    assert(all.take(all.len() as int) =~= all);
    total
}

/// The place in a list of `len` that was meant by `i`.
fn place_in(i: i32, len: usize) -> (r: usize)
    requires
        len > 0,
    ensures
        r == place(i as int, len as int),
        r < len,
{
    if i < 0 {
        0
    } else if i as usize >= len {
        len - 1
    } else {
        i as usize
    }
}

/// The place of the group that was shown last, by the id that the settings name;
/// the first one where that id is not there.
pub open spec fn restored_group(groups: Seq<GroupView>, last_group: Option<Seq<char>>) -> int {
    if groups.len() == 0 || last_group is None {
        0
    } else if exists|i: int|
        0 <= i < groups.len() && Some((#[trigger] groups[i]).id) == last_group {
        choose|i: int|
            0 <= i < groups.len() && Some((#[trigger] groups[i]).id) == last_group && forall|k: int|
                0 <= k < i ==> Some((#[trigger] groups[k]).id) != last_group
    } else {
        0
    }
}

/// The place of the group to show first.
fn first_shown(data: &PhraseData, last_group: &Option<String>) -> (r: usize)
    ensures
        r == restored_group(data@, crate::storage::text_view(*last_group)),
{
    let ghost groups = data@;
    let ghost last = crate::storage::text_view(*last_group);
    match last_group {
        None => 0,
        Some(id) => {
            for i in 0..data.groups.len()
                invariant
                    groups == data@,
                    last == Some(id@),
                    last == crate::storage::text_view(*last_group),
                    forall|k: int| 0 <= k < i ==> Some((#[trigger] groups[k]).id) != last,
            {
                if same(data.groups[i].id.as_str(), id.as_str()) {
                    proof {
                        assert(Some(groups[i as int].id) == last);
                        let c = choose|c: int|
                            0 <= c < groups.len() && Some((#[trigger] groups[c]).id) == last
                                && forall|k: int|
                                0 <= k < c ==> Some((#[trigger] groups[k]).id) != last;
                        assert(c == i);
                    }
                    return i;
                }
            }
            0
        },
    }
}

impl Session {
    /// A session on data and settings that were loaded, with the group shown
    /// that was shown last.
    pub fn new(data: PhraseData, settings: Settings) -> (r: Self)
        ensures
            r@ == (SessionView {
                groups: data@,
                settings: settings@,
                active_group: restored_group(data@, settings@.last_group),
                items: Seq::empty(),
                pending_edit: None,
                confirm_action: None,
                last_deleted: None,
            }),
    {
        let active_group: usize = first_shown(&data, &settings.last_group);
        let r = Session {
            data,
            settings,
            active_group,
            items: Vec::new(),
            pending_edit: None,
            confirm_action: None,
            last_deleted: None,
        };
        assert(r@.items =~= Seq::empty());
        r
    }

    /// Shows the group at `idx`, or the last if there is none there, and keeps
    /// it in the settings. The settings are then to be saved.
    pub fn set_active_group(&mut self, idx: usize)
        ensures
            final(self)@ == old(self)@.with_active(idx as int),
            final(self)@.in_sync(),
    {
        let last: usize = if self.data.groups.len() == 0 {
            0
        } else {
            self.data.groups.len() - 1
        };
        let idx: usize = if idx < last {
            idx
        } else {
            last
        };
        self.active_group = idx;
        self.settings.last_group =
        if idx < self.data.groups.len() {
            Some(self.data.groups[idx].id.clone())
        } else {
            None
        };
    }

    /// Shows the group at `idx`, if there is one; whether there is.
    pub fn select_group(&mut self, idx: i32) -> (r: bool)
        ensures
            r == (0 <= idx < old(self)@.groups.len()),
            final(self)@ == (if r {
                old(self)@.with_active(idx as int)
            } else {
                old(self)@
            }),
            r ==> final(self)@.in_sync(),
    {
        if idx < 0 || idx as usize >= self.data.groups.len() {
            return false;
        }
        self.set_active_group(idx as usize);
        true
    }

    /// Takes a phrase away, if there is one, and keeps it to be brought back.
    fn delete_phrase(&mut self, gi: usize, pi: usize)
        ensures
            final(self)@ == old(self)@.deleted(gi as int, pi as int),
    {
        let ghost was = self@;
        if gi < self.data.groups.len() && pi < self.data.groups[gi].phrases.len() {
            let p = self.data.groups[gi].phrases.remove(pi);
            self.last_deleted = Some((gi, pi, p));
            proof {
                assert(self@.groups[gi as int].phrases =~= was.groups[gi as int].phrases.remove(
                    pi as int,
                ));
                assert(self@.groups =~= was.deleted(gi as int, pi as int).groups);
            }
        }
    }

    /// Deletes the phrase that the panel shows at `i`. Whether the panel shows
    /// one there: then the data is to be saved and the user offered to bring the
    /// phrase back.
    pub fn item_delete_requested(&mut self, i: i32) -> (r: bool)
        ensures
            r == (0 <= i < old(self)@.items.len()),
            final(self)@ == (if r {
                old(self)@.deleted(
                    old(self)@.items[i as int].group_idx as int,
                    old(self)@.items[i as int].phrase_idx as int,
                )
            } else {
                old(self)@
            }),
    {
        if i < 0 || i as usize >= self.items.len() {
            return false;
        }
        let gi: usize = self.items[i as usize].group_idx;
        let pi: usize = self.items[i as usize].phrase_idx;
        self.delete_phrase(gi, pi);
        true
    }

    /// Deletes the phrase at `i` of the group that is shown, if there is one.
    /// The data is then to be saved and the user offered to bring it back.
    pub fn phrase_delete(&mut self, i: i32)
        ensures
            final(self)@ == old(self)@.deleted(old(self)@.active_group, i as int),
    {
        if i >= 0 {
            self.delete_phrase(self.active_group, i as usize);
        }
    }

    /// The user can no longer bring back what was deleted.
    pub fn clear_undo(&mut self)
        ensures
            final(self)@ == (SessionView { last_deleted: None, ..old(self)@ }),
    {
        self.last_deleted = None;
    }

    /// Brings back the phrase deleted last; whether there was one and a group to
    /// bring it to. Its place may have changed since: it is brought as near as
    /// can be.
    pub fn undo_delete(&mut self) -> (r: bool)
        ensures
            r == old(self)@.can_undo(),
            final(self)@ == old(self)@.undone(),
    {
        let ghost was = self@;
        let taken = self.last_deleted.take();
        match taken {
            Some((gi, pi, p)) => {
                if self.data.groups.len() == 0 {
                    return false;
                }
                let gi: usize = if gi < self.data.groups.len() {
                    gi
                } else {
                    self.data.groups.len() - 1
                };
                let pi: usize = if pi < self.data.groups[gi].phrases.len() {
                    pi
                } else {
                    self.data.groups[gi].phrases.len()
                };
                let ghost view = p@;
                self.data.groups[gi].phrases.insert(pi, p);
                proof {
                    assert(self@.groups[gi as int].phrases =~= was.groups[gi as int].phrases.insert(
                        pi as int,
                        view,
                    ));
                    assert(self@.groups =~= was.undone().groups);
                }
                true
            },
            None => false,
        }
    }

    /// Opens the editor on the phrase that the panel shows at `i`: its text, if
    /// the panel shows one there.
    pub fn item_edit_requested(&mut self, i: i32) -> (r: Option<String>)
        ensures
            match r {
                Some(text) => {
                    &&& 0 <= i < old(self)@.items.len()
                    &&& text@ == old(self)@.items[i as int].text
                    &&& final(self)@ == (SessionView {
                        pending_edit: Some(
                            (
                                old(self)@.items[i as int].group_idx,
                                Some(old(self)@.items[i as int].phrase_idx),
                            ),
                        ),
                        ..old(self)@
                    })
                },
                None => !(0 <= i < old(self)@.items.len()) && final(self)@ == old(self)@,
            },
    {
        if i < 0 || i as usize >= self.items.len() {
            return None;
        }
        let item = &self.items[i as usize];
        let text = item.text.clone();
        let target = (item.group_idx, Some(item.phrase_idx));
        self.pending_edit = Some(target);
        Some(text)
    }

    /// Opens the editor on a new phrase: of the group of what the panel shows at
    /// `i`, or of the group that is shown. Whether there is a group at all.
    pub fn item_add_requested(&mut self, i: i32) -> (r: bool)
        ensures
            r == (old(self)@.groups.len() > 0),
            !r ==> final(self)@ == old(self)@,
            r ==> final(self)@ == (SessionView {
                pending_edit: Some(
                    (
                        if 0 <= i < old(self)@.items.len() {
                            old(self)@.items[i as int].group_idx
                        } else if old(self)@.active_group < old(self)@.groups.len() {
                            old(self)@.active_group as usize
                        } else {
                            (old(self)@.groups.len() - 1) as usize
                        },
                        None,
                    ),
                ),
                ..old(self)@
            }),
    {
        if self.data.groups.len() == 0 {
            return false;
        }
        let gi: usize = if i >= 0 && (i as usize) < self.items.len() {
            self.items[i as usize].group_idx
        } else if self.active_group < self.data.groups.len() {
            self.active_group
        } else {
            self.data.groups.len() - 1
        };
        self.pending_edit = Some((gi, None));
        true
    }

    /// Replaces the text of a phrase, if there is one.
    fn set_text(&mut self, gi: usize, pi: usize, text: String)
        ensures
            final(self)@ == old(self)@.with_text(gi as int, pi as int, text@),
    {
        let ghost was = self@;
        if gi < self.data.groups.len() && pi < self.data.groups[gi].phrases.len() {
            let ghost view = text@;
            self.data.groups[gi].phrases[pi].text = text;
            proof {
                let phrases = was.groups[gi as int].phrases;
                assert(self@.groups[gi as int].phrases =~= phrases.update(
                    pi as int,
                    PhraseView { text: view, ..phrases[pi as int] },
                ));
                assert(self@.groups =~= was.with_text(gi as int, pi as int, view).groups);
            }
        }
    }

    /// Adds a phrase to a group.
    fn push_phrase(&mut self, gi: usize, id: String, text: String)
        requires
            gi < old(self)@.groups.len(),
        ensures
            final(self)@ == old(self)@.with_added(gi as int, id@, text@),
    {
        let ghost was = self@;
        let ghost (id_view, text_view) = (id@, text@);
        self.data.groups[gi].phrases.push(Phrase::new(id, text));
        proof {
            assert(self@.groups[gi as int].phrases =~= was.groups[gi as int].phrases.push(
                crate::storage::new_phrase(id_view, text_view),
            ));
            assert(self@.groups =~= was.with_added(gi as int, id_view, text_view).groups);
        }
    }

    /// Whether saving what the editor holds adds a phrase; if not, no id is
    /// needed for one.
    pub fn needs_id_to_save(&self, text: &str) -> (r: bool)
        ensures
            r == self@.editor_adds(text@),
            !r ==> forall|a: Seq<char>, b: Seq<char>| #[trigger]
                self@.editor_saved(text@, a) == #[trigger] self@.editor_saved(text@, b),
    {
        let text = trim(text);
        if text.is_empty() || text.unicode_len() > MAX_TEXT_CHARS {
            return false;
        }
        match self.pending_edit {
            Some((gi, None)) => gi < self.data.groups.len() && self.data.groups[gi].phrases.len()
                < MAX_PHRASES_PER_GROUP,
            _ => false,
        }
    }

    /// Whether adding `text` to the group that is shown adds a phrase; if not, no
    /// id is needed for one.
    pub fn needs_id_to_add(&self, text: &str) -> (r: bool)
        ensures
            r == self@.phrase_adds(text@),
            !r ==> forall|a: Seq<char>, b: Seq<char>| #[trigger]
                self@.phrase_added(text@, a) == #[trigger] self@.phrase_added(text@, b),
    {
        let text = trim(text);
        if text.is_empty() || text.unicode_len() > MAX_TEXT_CHARS {
            return false;
        }
        let gi: usize = self.active_group;
        gi < self.data.groups.len() && self.data.groups[gi].phrases.len() < MAX_PHRASES_PER_GROUP
    }

    /// Saves what the editor holds to where it was opened on; `id` is for a new
    /// phrase.
    pub fn editor_saved(&mut self, text: &str, id: String) -> (r: Edited)
        ensures
            (final(self)@, r@) == old(self)@.editor_saved(text@, id@),
    {
        let text = trim(text);
        if text.is_empty() {
            return Edited::Unchanged;
        }
        if text.unicode_len() > MAX_TEXT_CHARS {
            return Edited::Refused(too_long_text("未保存"));
        }
        let (gi, target) = match self.pending_edit.take() {
            Some(t) => t,
            None => {
                return Edited::Unchanged;
            },
        };
        if gi >= self.data.groups.len() {
            return Edited::Unchanged;
        }
        match target {
            Some(pi) => {
                self.set_text(gi, pi, text.to_owned());
            },
            None => {
                if self.data.groups[gi].phrases.len() >= MAX_PHRASES_PER_GROUP {
                    return Edited::Refused("⚠ 该分组短语已达上限".to_owned());
                }
                self.push_phrase(gi, id, text.to_owned());
            },
        }
        Edited::Done
    }

    /// Adds a phrase to the group that is shown.
    pub fn phrase_add(&mut self, text: &str, id: String) -> (r: Edited)
        ensures
            (final(self)@, r@) == old(self)@.phrase_added(text@, id@),
    {
        let text = trim(text);
        if text.is_empty() {
            return Edited::Unchanged;
        }
        if text.unicode_len() > MAX_TEXT_CHARS {
            return Edited::Refused(too_long_text("未添加"));
        }
        let gi: usize = self.active_group;
        if gi < self.data.groups.len() {
            if self.data.groups[gi].phrases.len() >= MAX_PHRASES_PER_GROUP {
                return Edited::Refused("⚠ 该分组短语已达上限".to_owned());
            }
            self.push_phrase(gi, id, text.to_owned());
        }
        Edited::Done
    }

    /// Replaces the text of the phrase at `i` of the group that is shown.
    pub fn phrase_edited(&mut self, i: i32, text: &str) -> (r: Edited)
        ensures
            (final(self)@, r@) == old(self)@.phrase_edited(i as int, text@),
    {
        let text = trim(text);
        if text.is_empty() {
            return Edited::Refused("⚠ 内容不能为空,未修改".to_owned());
        }
        if text.unicode_len() > MAX_TEXT_CHARS {
            return Edited::Refused(too_long_text("未修改"));
        }
        if i >= 0 {
            self.set_text(self.active_group, i as usize, text.to_owned());
        }
        Edited::Done
    }

    /// Moves a group from one place to another and shows it; whether anything
    /// moves.
    pub fn group_dropped(&mut self, from: i32, to: i32) -> (r: bool)
        ensures
            (final(self)@, r) == old(self)@.group_dropped(from as int, to as int),
            r || old(self)@.in_sync() ==> final(self)@.in_sync(),
    {
        let ghost was = self@;
        let len: usize = self.data.groups.len();
        if len == 0 {
            return false;
        }
        let from: usize = place_in(from, len);
        let to: usize = place_in(to, len);
        if from == to {
            return false;
        }
        let g = self.data.groups.remove(from);
        self.data.groups.insert(to, g);
        assert(self@.groups =~= moved(was.groups, from as int, to as int));
        self.set_active_group(to);
        true
    }

    /// Moves a phrase of the group that is shown from one place to another;
    /// whether anything moves.
    pub fn phrase_dropped(&mut self, from: i32, to: i32) -> (r: bool)
        ensures
            (final(self)@, r) == old(self)@.phrase_dropped(from as int, to as int),
    {
        let ghost was = self@;
        let gi: usize = self.active_group;
        if gi >= self.data.groups.len() {
            return false;
        }
        let len: usize = self.data.groups[gi].phrases.len();
        if len == 0 {
            return false;
        }
        let from: usize = place_in(from, len);
        let to: usize = place_in(to, len);
        if from == to {
            return false;
        }
        let p = self.data.groups[gi].phrases.remove(from);
        self.data.groups[gi].phrases.insert(to, p);
        proof {
            let phrases = was.groups[gi as int].phrases;
            assert(self@.groups[gi as int].phrases =~= moved(phrases, from as int, to as int));
            assert(self@.groups =~= with_phrases(
                was.groups,
                gi as int,
                moved(phrases, from as int, to as int),
            ));
        }
        true
    }

    /// Whether there can be one more group; if not, no id is needed for one.
    pub fn has_room_for_group(&self) -> (r: bool)
        ensures
            r == (self@.groups.len() < MAX_GROUPS),
            !r ==> forall|id: Seq<char>| (#[trigger] self@.group_added(id)) == (self@, false),
    {
        self.data.groups.len() < MAX_GROUPS
    }

    /// Adds a group and shows it; whether there can be one more.
    pub fn group_add(&mut self, id: String) -> (r: bool)
        ensures
            (final(self)@, r) == old(self)@.group_added(id@),
            r || old(self)@.in_sync() ==> final(self)@.in_sync(),
    {
        let ghost was = self@;
        if self.data.groups.len() >= MAX_GROUPS {
            return false;
        }
        let g = Group {
            id,
            name: "新分组".to_owned(),
            icon: Some("folder".to_owned()),
            phrases: Vec::new(),
        };
        assert(g@.phrases =~= Seq::empty());
        let ghost added = g@;
        self.data.groups.push(g);
        assert(self@.groups =~= was.groups.push(added));
        self.set_active_group(self.data.groups.len() - 1);
        true
    }

    /// Gives the group that is shown a name; whether the name says anything.
    pub fn group_renamed(&mut self, name: &str) -> (r: bool)
        ensures
            (final(self)@, r) == old(self)@.group_renamed(name@),
            old(self)@.in_sync() ==> final(self)@.in_sync(),
    {
        let ghost was = self@;
        let name = trim(name);
        if name.is_empty() {
            return false;
        }
        let gi: usize = self.active_group;
        if gi < self.data.groups.len() {
            self.data.groups[gi].name = name.to_owned();
            assert(self@.groups =~= was.groups.update(
                gi as int,
                GroupView { name: name@, ..was.groups[gi as int] },
            ));
        }
        true
    }

    /// Gives the group that is shown the icon that a choice of `i` stands for.
    pub fn group_icon_set(&mut self, i: i32)
        ensures
            final(self)@ == old(self)@.group_icon_set(i as int),
            old(self)@.in_sync() ==> final(self)@.in_sync(),
    {
        let ghost was = self@;
        let gi: usize = self.active_group;
        if gi < self.data.groups.len() {
            let key = crate::icons::icon_key(i);
            let ghost view = key@;
            self.data.groups[gi].icon = Some(key);
            assert(self@.groups =~= was.groups.update(
                gi as int,
                GroupView { icon: Some(view), ..was.groups[gi as int] },
            ));
        }
    }

    /// Asks whether to delete the group that is shown; nothing, where there is
    /// none.
    pub fn group_delete(&mut self) -> (r: Option<Prompt>)
        ensures
            match r {
                Some(p) => {
                    &&& old(self)@.active_group < old(self)@.groups.len()
                    &&& p@ == delete_prompt(old(self)@.groups[old(self)@.active_group])
                    &&& final(self)@ == (SessionView {
                        confirm_action: Some(ConfirmView::DeleteGroup),
                        ..old(self)@
                    })
                },
                None => old(self)@.active_group >= old(self)@.groups.len() && final(self)@ == old(
                    self,
                )@,
            },
    {
        let gi: usize = self.active_group;
        if gi >= self.data.groups.len() {
            return None;
        }
        let mut message = "将删除「".to_owned();
        message.append(self.data.groups[gi].name.as_str());
        message.append("」及其中 ");
        message.append(in_decimal(self.data.groups[gi].phrases.len() as u128).as_str());
        message.append(" 条常用语,此操作不可撤销。");
        self.confirm_action = Some(ConfirmAction::DeleteGroup);
        Some(
            Prompt {
                kind: 0,
                action_label: "删除".to_owned(),
                title: "删除分组".to_owned(),
                message,
            },
        )
    }

    /// Asks whether other data may replace all there is.
    pub fn import_requested(&mut self, data: PhraseData) -> (r: Prompt)
        ensures
            r@ == import_prompt(data@, old(self)@.groups),
            final(self)@ == (SessionView {
                confirm_action: Some(ConfirmView::ImportReplace(data@)),
                ..old(self)@
            }),
    {
        let mut message = "将用文件内容(共 ".to_owned();
        message.append(in_decimal(data.groups.len() as u128).as_str());
        message.append(" 组 ");
        message.append(in_decimal(count_phrases(&data)).as_str());
        message.append(" 条)替换当前全部常用语(");
        message.append(in_decimal(self.data.groups.len() as u128).as_str());
        message.append(" 组 ");
        message.append(in_decimal(count_phrases(&self.data)).as_str());
        message.append(" 条)。\n当前数据会先备份为 phrases.pre-import.json。");
        self.confirm_action = Some(ConfirmAction::ImportReplace(data));
        Prompt {
            kind: 1,
            action_label: "替换导入".to_owned(),
            title: "导入并替换".to_owned(),
            message,
        }
    }

    /// Does what was asked to be confirmed. Data that is to replace all there is
    /// comes back: all there is has to be made safe before `apply_import`.
    pub fn confirm_ok(&mut self) -> (r: Confirmed)
        ensures
            match old(self)@.confirm_action {
                None => r is Nothing && final(self)@ == old(self)@,
                Some(ConfirmView::DeleteGroup) => r is GroupDeleted && final(self)@
                    == SessionView { confirm_action: None, ..old(self)@ }.group_deleted()
                    && final(self)@.in_sync(),
                Some(ConfirmView::ImportReplace(new)) => r matches Confirmed::Import(data)
                    && data@ == new && final(self)@ == (SessionView {
                    confirm_action: None,
                    ..old(self)@
                }),
            },
    {
        let ghost was = self@;
        match self.confirm_action.take() {
            None => Confirmed::Nothing,
            Some(ConfirmAction::DeleteGroup) => {
                let gi: usize = self.active_group;
                if gi < self.data.groups.len() {
                    let _ = self.data.groups.remove(gi);
                    assert(self@.groups =~= was.groups.remove(gi as int));
                }
                self.set_active_group(0);
                Confirmed::GroupDeleted
            },
            Some(ConfirmAction::ImportReplace(data)) => Confirmed::Import(data),
        }
    }

    /// Puts other data in place of all there is, if all there is could be made
    /// safe; else leaves all as it is. What the user is told, and whether it is
    /// an error. If it is none, data and settings are to be saved.
    pub fn apply_import(&mut self, data: PhraseData, snapshot: Result<(), String>) -> (r: (
        String,
        bool,
    ))
        ensures
            final(self)@ == old(self)@.import_applied(data@, snapshot is Ok),
            r.1 == (snapshot is Err),
            r.0@ == import_notice(
                match snapshot {
                    Ok(u) => Ok(u),
                    Err(e) => Err(e@),
                },
            ),
            snapshot is Ok || old(self)@.in_sync() ==> final(self)@.in_sync(),
    {
        match snapshot {
            Err(e) => {
                let mut m = "⚠ 导入中止:备份当前数据失败(".to_owned();
                m.append(e.as_str());
                m.append(")");
                (m, true)
            },
            Ok(()) => {
                self.data = data;
                self.last_deleted = None;
                self.set_active_group(0);
                ("已导入 ✓(原数据备份在 phrases.pre-import.json)".to_owned(), false)
            },
        }
    }

    /// Chooses the theme. The settings are then to be saved.
    pub fn theme_toggled(&mut self, solid: bool)
        ensures
            final(self)@ == (SessionView {
                settings: SettingsView {
                    theme: if solid {
                        "solid"@
                    } else {
                        "acrylic"@
                    },
                    ..old(self)@.settings
                },
                ..old(self)@
            }),
    {
        self.settings.theme =
        if solid {
            "solid".to_owned()
        } else {
            "acrylic".to_owned()
        };
    }

    /// Whether the user wants a solid background.
    pub fn wants_solid(&self) -> (r: bool)
        ensures
            r == (self@.settings.theme == "solid"@),
    {
        same(self.settings.theme.as_str(), "solid")
    }

    /// Chooses a pet, if its sheet could be decoded; else tells the user that it
    /// could not.
    pub fn pet_selected(&mut self, id: String, decoded: bool) -> (r: Option<String>)
        ensures
            final(self)@ == (if decoded {
                SessionView {
                    settings: SettingsView { pet_id: id@, ..old(self)@.settings },
                    ..old(self)@
                }
            } else {
                old(self)@
            }),
            match r {
                None => decoded,
                Some(m) => !decoded && m@ == "⚠ 该宠物雪碧图无法解码(文件损坏?),已保留当前选择"@,
            },
    {
        if decoded {
            self.settings.pet_id = id;
            None
        } else {
            Some("⚠ 该宠物雪碧图无法解码(文件损坏?),已保留当前选择".to_owned())
        }
    }

    /// Chooses whether the panel shows the phrases that are used most first. The
    /// settings are then to be saved.
    pub fn sort_toggled(&mut self, on: bool)
        ensures
            final(self)@ == (SessionView {
                settings: SettingsView { sort_by_use: on, ..old(self)@.settings },
                ..old(self)@
            }),
    {
        self.settings.sort_by_use = on;
    }

    /// Chooses whether to look for a new version now and then. The settings are
    /// then to be saved.
    pub fn auto_check_toggled(&mut self, on: bool)
        ensures
            final(self)@ == (SessionView {
                settings: SettingsView { auto_check_update: on, ..old(self)@.settings },
                ..old(self)@
            }),
    {
        self.settings.auto_check_update = on;
    }

    /// Chooses a directory to look for pets in. The settings are then to be
    /// saved.
    pub fn dir_picked(&mut self, dir: String)
        ensures
            final(self)@ == (SessionView {
                settings: SettingsView { custom_pet_dir: Some(dir@), ..old(self)@.settings },
                ..old(self)@
            }),
    {
        self.settings.custom_pet_dir = Some(dir);
    }

    /// Keeps where the pet stands. The settings are then to be saved.
    pub fn pet_moved(&mut self, x: i32, y: i32)
        ensures
            final(self)@ == (SessionView {
                settings: SettingsView { pet_pos: Some((x, y)), ..old(self)@.settings },
                ..old(self)@
            }),
    {
        self.settings.pet_pos = Some((x, y));
    }

    /// The text to copy of what the panel shows at `i`, and where it is kept.
    pub fn copy_target(&self, i: i32) -> (r: Option<(String, usize, usize)>)
        ensures
            match r {
                Some((text, gi, pi)) => {
                    &&& 0 <= i < self@.items.len()
                    &&& self@.items[i as int] == (ItemView {
                        text: text@,
                        group_idx: gi,
                        phrase_idx: pi,
                    })
                },
                None => !(0 <= i < self@.items.len()),
            },
    {
        if i < 0 || i as usize >= self.items.len() {
            return None;
        }
        let item = &self.items[i as usize];
        Some((item.text.clone(), item.group_idx, item.phrase_idx))
    }

    /// Counts one more use of a phrase, if there is such a phrase.
    pub fn record_copy(&mut self, gi: usize, pi: usize)
        ensures
            final(self)@ == old(self)@.copy_recorded(gi as int, pi as int),
    {
        let ghost was = self@;
        if gi < self.data.groups.len() && pi < self.data.groups[gi].phrases.len() {
            let n: u32 = self.data.groups[gi].phrases[pi].use_count.saturating_add(1);
            self.data.groups[gi].phrases[pi].use_count = n;
            proof {
                let phrases = was.groups[gi as int].phrases;
                assert(self@.groups[gi as int].phrases =~= phrases.update(
                    pi as int,
                    PhraseView { use_count: n, ..phrases[pi as int] },
                ));
                assert(self@.groups =~= was.copy_recorded(gi as int, pi as int).groups);
            }
        }
    }
}

/// What came of a confirmation.
#[derive(Debug, PartialEq)]
pub enum Confirmed {
    /// There was nothing to confirm.
    Nothing,
    /// The group is gone: data and settings are to be saved.
    GroupDeleted,
    /// This data is to replace all there is, once that is safe.
    Import(PhraseData),
}

} // verus!
