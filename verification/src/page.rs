//! What the windows list: the tabs of the panel, and the rows and cards of the
//! settings.

use crate::icons::icon_idx;
use crate::pet::{pets_view, PetInfo, PetView};
use crate::session::{Session, SessionView};
use crate::storage::{GroupView, Phrase, PhraseData, PhraseView};
use crate::text::{blank, on_one_line, same};
use vstd::prelude::*;

verus! {

/// A tab of the panel, one for each group.
#[derive(Debug, PartialEq)]
pub struct Tab {
    pub id: String,
    pub name: String,
    pub icon_idx: i32,
    pub active: bool,
}

/// What a `Tab` shows.
#[verifier::ext_equal]
pub struct TabView {
    pub id: Seq<char>,
    pub name: Seq<char>,
    pub icon_idx: int,
    pub active: bool,
}

impl View for Tab {
    type V = TabView;

    open spec fn view(&self) -> TabView {
        TabView {
            id: self.id@,
            name: self.name@,
            icon_idx: self.icon_idx as int,
            active: self.active,
        }
    }
}

/// The tabs for the groups, with the one at `active` in front.
pub open spec fn tabs_of(groups: Seq<GroupView>, active: int) -> Seq<TabView> {
    groups.map(
        |i: int, g: GroupView|
            TabView {
                id: g.id,
                name: g.name,
                icon_idx: crate::icons::icon_number(g.icon),
                active: i == active,
            },
    )
}

/// The tabs for the groups, with the one at `active` in front.
pub fn tabs(data: &PhraseData, active: usize) -> (r: Vec<Tab>)
    ensures
        r@.map_values(|t: Tab| t@) == tabs_of(data@, active as int),
{
    let ghost all = tabs_of(data@, active as int);
    let mut out: Vec<Tab> = Vec::new();
    for i in 0..data.groups.len()
        invariant
            all == tabs_of(data@, active as int),
            out@.len() == i,
            forall|k: int| 0 <= k < i ==> (#[trigger] out@[k])@ == all[k],
    {
        let g = &data.groups[i];
        out.push(
            Tab {
                id: g.id.clone(),
                name: g.name.clone(),
                icon_idx: icon_idx(&g.icon),
                active: i == active,
            },
        );
        assert(out@[i as int]@ == all[i as int]);
    }
    assert(out@.map_values(|t: Tab| t@) =~= all);
    out
}

/// Whether there are so many groups that the panel offers to show them all at
/// once.
pub fn shows_grid(data: &PhraseData) -> (r: bool)
    ensures
        r == (data@.len() > 4),
{
    data.groups.len() > 4
}

/// Whether the panel shows what a search finds, and not a group.
pub fn is_search(query: &str) -> (r: bool)
    ensures
        r == !crate::text::is_blank(query@),
{
    !blank(query)
}

/// A group in the list of the settings.
#[derive(Debug, PartialEq)]
pub struct GroupRow {
    pub name: String,
    pub icon_idx: i32,
    pub count: usize,
    pub selected: bool,
}

/// What a `GroupRow` shows.
#[verifier::ext_equal]
pub struct GroupRowView {
    pub name: Seq<char>,
    pub icon_idx: int,
    pub count: nat,
    pub selected: bool,
}

impl View for GroupRow {
    type V = GroupRowView;

    open spec fn view(&self) -> GroupRowView {
        GroupRowView {
            name: self.name@,
            icon_idx: self.icon_idx as int,
            count: self.count as nat,
            selected: self.selected,
        }
    }
}

/// A phrase in the list of the settings: its text, and the same on one line.
#[derive(Debug, PartialEq)]
pub struct PhraseRow {
    pub text: String,
    pub display: String,
}

/// What a `PhraseRow` shows.
#[verifier::ext_equal]
pub struct PhraseRowView {
    pub text: Seq<char>,
    pub display: Seq<char>,
}

impl View for PhraseRow {
    type V = PhraseRowView;

    open spec fn view(&self) -> PhraseRowView {
        PhraseRowView { text: self.text@, display: self.display@ }
    }
}

/// A pet to choose in the settings.
#[derive(Debug, PartialEq)]
pub struct PetCard {
    pub name: String,
    /// Why it cannot be chosen; empty if it can.
    pub err: String,
    pub selected: bool,
    /// Whether a picture of it is shown.
    pub has_picture: bool,
}

/// What a `PetCard` shows.
#[verifier::ext_equal]
pub struct PetCardView {
    pub name: Seq<char>,
    pub err: Seq<char>,
    pub selected: bool,
    pub has_picture: bool,
}

impl View for PetCard {
    type V = PetCardView;

    open spec fn view(&self) -> PetCardView {
        PetCardView {
            name: self.name@,
            err: self.err@,
            selected: self.selected,
            has_picture: self.has_picture,
        }
    }
}

/// The settings as they are shown.
#[derive(Debug, PartialEq)]
pub struct SettingsPage {
    pub groups: Vec<GroupRow>,
    /// The name of the group that is shown; empty if there is none.
    pub group_name: String,
    pub group_icon_idx: i32,
    /// Its phrases.
    pub phrases: Vec<PhraseRow>,
    pub pets: Vec<PetCard>,
    pub custom_dir: String,
    pub has_group: bool,
    /// Whether another group had to be shown, so that the settings are to be
    /// saved.
    pub saves_settings: bool,
}

/// What a `SettingsPage` shows.
#[verifier::ext_equal]
pub struct SettingsPageView {
    pub groups: Seq<GroupRowView>,
    pub group_name: Seq<char>,
    pub group_icon_idx: int,
    pub phrases: Seq<PhraseRowView>,
    pub pets: Seq<PetCardView>,
    pub custom_dir: Seq<char>,
    pub has_group: bool,
    pub saves_settings: bool,
}

impl View for SettingsPage {
    type V = SettingsPageView;

    open spec fn view(&self) -> SettingsPageView {
        SettingsPageView {
            groups: self.groups@.map_values(|g: GroupRow| g@),
            group_name: self.group_name@,
            group_icon_idx: self.group_icon_idx as int,
            phrases: self.phrases@.map_values(|p: PhraseRow| p@),
            pets: self.pets@.map_values(|p: PetCard| p@),
            custom_dir: self.custom_dir@,
            has_group: self.has_group,
            saves_settings: self.saves_settings,
        }
    }
}

/// The rows for the groups, with the one at `active` selected.
pub open spec fn group_rows_of(groups: Seq<GroupView>, active: int) -> Seq<GroupRowView> {
    groups.map(
        |i: int, g: GroupView|
            GroupRowView {
                name: g.name,
                icon_idx: crate::icons::icon_number(g.icon),
                count: g.phrases.len(),
                selected: i == active,
            },
    )
}

/// The rows for the phrases of a group.
pub open spec fn phrase_rows_of(phrases: Seq<PhraseView>) -> Seq<PhraseRowView> {
    phrases.map_values(
        |p: PhraseView| PhraseRowView { text: p.text, display: crate::text::one_line(p.text) },
    )
}

/// The cards for the pets, with that of `pet_id` selected.
pub open spec fn pet_cards_of(pets: Seq<PetView>, pet_id: Seq<char>) -> Seq<PetCardView> {
    pets.map_values(
        |p: PetView|
            PetCardView {
                name: p.name,
                err: match p.error {
                    Some(e) => e,
                    None => Seq::empty(),
                },
                selected: p.id == pet_id,
                has_picture: p.error is None,
            },
    )
}

/// The session with a group shown that there is, if there is any. Where that is
/// another than before, the settings name it too.
pub open spec fn settled(s: SessionView) -> SessionView {
    if s.active_group < s.groups.len() || s.active_group == 0 {
        s
    } else {
        s.with_active(s.active_group)
    }
}

/// The settings as they are shown for a session and the pets there are.
pub open spec fn settings_page_of(s: SessionView, pets: Seq<PetView>) -> SettingsPageView {
    let shown = settled(s).active_group;
    SettingsPageView {
        groups: group_rows_of(s.groups, s.active_group),
        group_name: if s.groups.len() > 0 {
            s.groups[shown].name
        } else {
            Seq::empty()
        },
        group_icon_idx: if s.groups.len() > 0 {
            crate::icons::icon_number(s.groups[shown].icon)
        } else {
            11
        },
        phrases: if s.groups.len() > 0 {
            phrase_rows_of(s.groups[shown].phrases)
        } else {
            Seq::empty()
        },
        pets: pet_cards_of(pets, s.settings.pet_id),
        custom_dir: match s.settings.custom_pet_dir {
            Some(d) => d,
            None => Seq::empty(),
        },
        has_group: s.groups.len() > 0,
        saves_settings: settled(s) != s,
    }
}

fn group_rows(data: &PhraseData, active: usize) -> (r: Vec<GroupRow>)
    ensures
        r@.map_values(|g: GroupRow| g@) == group_rows_of(data@, active as int),
{
    let ghost all = group_rows_of(data@, active as int);
    let mut out: Vec<GroupRow> = Vec::new();
    for i in 0..data.groups.len()
        invariant
            all == group_rows_of(data@, active as int),
            out@.len() == i,
            forall|k: int| 0 <= k < i ==> (#[trigger] out@[k])@ == all[k],
    {
        let g = &data.groups[i];
        out.push(
            GroupRow {
                name: g.name.clone(),
                icon_idx: icon_idx(&g.icon),
                count: g.phrases.len(),
                selected: i == active,
            },
        );
        assert(out@[i as int]@ == all[i as int]);
    }
    assert(out@.map_values(|g: GroupRow| g@) =~= all);
    out
}

fn phrase_rows(phrases: &Vec<Phrase>) -> (r: Vec<PhraseRow>)
    ensures
        r@.map_values(|p: PhraseRow| p@) == phrase_rows_of(
            crate::storage::phrases_view(phrases@),
        ),
{
    let ghost all = phrase_rows_of(crate::storage::phrases_view(phrases@));
    let mut out: Vec<PhraseRow> = Vec::new();
    for i in 0..phrases.len()
        invariant
            all == phrase_rows_of(crate::storage::phrases_view(phrases@)),
            out@.len() == i,
            forall|k: int| 0 <= k < i ==> (#[trigger] out@[k])@ == all[k],
    {
        let p = &phrases[i];
        out.push(PhraseRow { text: p.text.clone(), display: on_one_line(p.text.as_str()) });
        assert(out@[i as int]@ == all[i as int]);
    }
    assert(out@.map_values(|p: PhraseRow| p@) =~= all);
    out
}

fn pet_cards(pets: &Vec<PetInfo>, pet_id: &str) -> (r: Vec<PetCard>)
    ensures
        r@.map_values(|p: PetCard| p@) == pet_cards_of(pets_view(pets@), pet_id@),
{
    let ghost all = pet_cards_of(pets_view(pets@), pet_id@);
    let mut out: Vec<PetCard> = Vec::new();
    for i in 0..pets.len()
        invariant
            all == pet_cards_of(pets_view(pets@), pet_id@),
            out@.len() == i,
            forall|k: int| 0 <= k < i ==> (#[trigger] out@[k])@ == all[k],
    {
        let p = &pets[i];
        let err = match &p.error {
            Some(e) => e.clone(),
            None => String::new(),
        };
        out.push(
            PetCard {
                name: p.name.clone(),
                err,
                selected: same(p.id.as_str(), pet_id),
                has_picture: p.error.is_none(),
            },
        );
        assert(out@[i as int]@ == all[i as int]);
    }
    assert(out@.map_values(|p: PetCard| p@) =~= all);
    out
}

/// The settings as they are shown. If the group that is shown is no longer
/// there, the last one is shown from now on and kept in the settings.
pub fn settings_page(session: &mut Session, pets: &Vec<PetInfo>) -> (r: SettingsPage)
    ensures
        r@ == settings_page_of(old(session)@, pets_view(pets@)),
        final(session)@ == settled(old(session)@),
        r.saves_settings || old(session)@.in_sync() ==> final(session)@.in_sync(),
{
    let groups = group_rows(&session.data, session.active_group);
    let len: usize = session.data.groups.len();
    let saves_settings = session.active_group >= len && session.active_group != 0;
    if saves_settings {
        session.set_active_group(session.active_group);
    }
    let cards = pet_cards(pets, session.settings.pet_id.as_str());
    let custom_dir = match &session.settings.custom_pet_dir {
        Some(d) => d.clone(),
        None => String::new(),
    };
    if len > 0 {
        let g = &session.data.groups[session.active_group];
        SettingsPage {
            groups,
            group_name: g.name.clone(),
            group_icon_idx: icon_idx(&g.icon),
            phrases: phrase_rows(&g.phrases),
            pets: cards,
            custom_dir,
            has_group: true,
            saves_settings,
        }
    } else {
        let phrases: Vec<PhraseRow> = Vec::new();
        assert(phrases@.map_values(|p: PhraseRow| p@) =~= Seq::<PhraseRowView>::empty());
        SettingsPage {
            groups,
            group_name: String::new(),
            group_icon_idx: 11,
            phrases,
            pets: cards,
            custom_dir,
            has_group: false,
            saves_settings,
        }
    }
}

/// At most one tab is in front, and exactly one where the group that is shown is
/// there.
pub proof fn one_tab_is_in_front(groups: Seq<GroupView>, active: int, i: int)
    requires
        0 <= i < groups.len(),
    ensures
        tabs_of(groups, active).len() == groups.len(),
        tabs_of(groups, active)[i].active <==> i == active,
{
}

/// Each tab stands for the group at its place, with its id, its name and its
/// icon.
pub proof fn a_tab_is_that_of_its_group(groups: Seq<GroupView>, active: int, i: int)
    requires
        0 <= i < groups.len(),
    ensures
        tabs_of(groups, active).len() == groups.len(),
        tabs_of(groups, active)[i].id == groups[i].id,
        tabs_of(groups, active)[i].name == groups[i].name,
        tabs_of(groups, active)[i].icon_idx == crate::icons::icon_number(groups[i].icon),
        tabs_of(groups, active)[i].active == (i == active),
{
}

/// The settings list every group at its place, with its name, its icon and how
/// many phrases it holds; the one that is shown is selected.
pub proof fn the_settings_list_every_group(s: SessionView, pets: Seq<PetView>, i: int)
    requires
        0 <= i < s.groups.len(),
    ensures
        ({
            let rows = settings_page_of(s, pets).groups;
            &&& rows.len() == s.groups.len()
            &&& rows[i].name == s.groups[i].name
            &&& rows[i].icon_idx == crate::icons::icon_number(s.groups[i].icon)
            &&& rows[i].count == s.groups[i].phrases.len()
            &&& rows[i].selected == (i == s.active_group)
        }),
{
}

/// The settings show the group that is shown, or the last one where there is no
/// group there: its name, its icon, and all its phrases in their own order.
pub proof fn the_settings_show_the_group_shown(s: SessionView, pets: Seq<PetView>)
    requires
        0 <= s.active_group,
    ensures
        ({
            let page = settings_page_of(s, pets);
            let n = s.groups.len() as int;
            let gi = if s.active_group < n {
                s.active_group
            } else {
                n - 1
            };
            &&& page.has_group == (n > 0)
            &&& n > 0 ==> {
                &&& page.group_name == s.groups[gi].name
                &&& page.group_icon_idx == crate::icons::icon_number(s.groups[gi].icon)
                &&& page.phrases.len() == s.groups[gi].phrases.len()
                &&& forall|k: int|
                    #![trigger page.phrases[k]]
                    0 <= k < page.phrases.len() ==> page.phrases[k].text
                        == s.groups[gi].phrases[k].text && page.phrases[k].display
                        == crate::text::one_line(s.groups[gi].phrases[k].text)
            }
            &&& n == 0 ==> page.group_name.len() == 0 && page.group_icon_idx == 11
                && page.phrases.len() == 0
            &&& s.settings.custom_pet_dir matches Some(d) ==> page.custom_dir == d
            &&& s.settings.custom_pet_dir is None ==> page.custom_dir.len() == 0
        }),
{
}

/// The settings show a card for every pet at its place: its name, why it cannot
/// be used, and whether it is the one that was selected.
pub proof fn the_settings_show_every_pet(s: SessionView, pets: Seq<PetView>, i: int)
    requires
        0 <= i < pets.len(),
    ensures
        ({
            let cards = settings_page_of(s, pets).pets;
            &&& cards.len() == pets.len()
            &&& cards[i].name == pets[i].name
            &&& cards[i].selected == (pets[i].id == s.settings.pet_id)
            &&& cards[i].has_picture == (pets[i].error is None)
            &&& pets[i].error matches Some(e) ==> cards[i].err == e
            &&& pets[i].error is None ==> cards[i].err.len() == 0
        }),
{
}

/// Showing the settings changes which group is shown only where there is none
/// there, and then the settings name the last one, if there is any. No data
/// changes.
pub proof fn the_settings_settle_on_a_group_there_is(s: SessionView, pets: Seq<PetView>)
    requires
        0 <= s.active_group,
    ensures
        ({
            let t = settled(s);
            let n = s.groups.len() as int;
            &&& s.active_group < n || s.active_group == 0 ==> t == s
            &&& s.active_group >= n > 0 && s.active_group > 0 ==> t.active_group == n - 1
                && t.settings.last_group == Some(s.groups[n - 1].id)
            &&& n == 0 ==> t.active_group == 0
            &&& t.groups == s.groups
            &&& t.last_deleted == s.last_deleted && t.pending_edit == s.pending_edit
            &&& t.settings.pet_id == s.settings.pet_id && t.settings.theme == s.settings.theme
            &&& settings_page_of(s, pets).saves_settings == (t.active_group != s.active_group)
        }),
{
}

} // verus!
