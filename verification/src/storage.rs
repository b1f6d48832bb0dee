//! What the program keeps: phrases in groups, and the settings.

use vstd::prelude::*;

verus! {

/// Groups that the data may hold.
pub const MAX_GROUPS: usize = 500;

/// Phrases that one group may hold.
pub const MAX_PHRASES_PER_GROUP: usize = 5000;

/// Characters that one phrase may hold.
pub const MAX_TEXT_CHARS: usize = 10_000;

/// Bytes that a file to be taken in may hold.
pub const MAX_IMPORT_BYTES: u64 = 20 * 1024 * 1024;

/// One phrase.
#[derive(Debug, PartialEq)]
pub struct Phrase {
    pub id: String,
    pub text: String,
    /// How often it was copied.
    pub use_count: u32,
}

/// What a `Phrase` holds.
#[verifier::ext_equal]
pub struct PhraseView {
    pub id: Seq<char>,
    pub text: Seq<char>,
    pub use_count: u32,
}

impl View for Phrase {
    type V = PhraseView;

    open spec fn view(&self) -> PhraseView {
        PhraseView { id: self.id@, text: self.text@, use_count: self.use_count }
    }
}

impl Phrase {
    /// A phrase that was never copied.
    pub fn new(id: String, text: String) -> (r: Self)
        ensures
            r.id == id,
            r.text == text,
            r.use_count == 0,
            r@ == (PhraseView { id: id@, text: text@, use_count: 0 }),
    {
        Phrase { id, text, use_count: 0 }
    }
}

impl Clone for Phrase {
    fn clone(&self) -> (r: Self)
        ensures
            r@ == self@,
    {
        Phrase { id: self.id.clone(), text: self.text.clone(), use_count: self.use_count }
    }
}

/// A named list of phrases.
#[derive(Debug, PartialEq)]
pub struct Group {
    pub id: String,
    pub name: String,
    /// The key of its icon.
    pub icon: Option<String>,
    pub phrases: Vec<Phrase>,
}

/// What a `Group` holds.
#[verifier::ext_equal]
pub struct GroupView {
    pub id: Seq<char>,
    pub name: Seq<char>,
    pub icon: Option<Seq<char>>,
    pub phrases: Seq<PhraseView>,
}

/// An optional text as a sequence.
pub open spec fn text_view(s: Option<String>) -> Option<Seq<char>> {
    match s {
        Some(t) => Some(t@),
        None => None,
    }
}

/// What a list of phrases holds.
pub open spec fn phrases_view(s: Seq<Phrase>) -> Seq<PhraseView> {
    s.map_values(|p: Phrase| p@)
}

/// What a list of groups holds.
pub open spec fn groups_view(s: Seq<Group>) -> Seq<GroupView> {
    s.map_values(|g: Group| g@)
}

impl View for Group {
    type V = GroupView;

    open spec fn view(&self) -> GroupView {
        GroupView {
            id: self.id@,
            name: self.name@,
            icon: text_view(self.icon),
            phrases: phrases_view(self.phrases@),
        }
    }
}

impl Clone for Group {
    fn clone(&self) -> (r: Self)
        ensures
            r@ == self@,
    {
        let mut phrases: Vec<Phrase> = Vec::new();
        for i in 0..self.phrases.len()
            invariant
                phrases_view(phrases@) == phrases_view(self.phrases@).take(i as int),
        {
            let ghost before = phrases_view(phrases@);
            phrases.push(self.phrases[i].clone());
            assert(phrases_view(phrases@) =~= before.push(self.phrases[i as int]@));
            assert(phrases_view(phrases@) =~= phrases_view(self.phrases@).take(i + 1));
        }
        assert(phrases_view(phrases@) =~= phrases_view(self.phrases@));
        Group {
            id: self.id.clone(),
            name: self.name.clone(),
            icon: copy_text(&self.icon),
            phrases,
        }
    }
}

/// A copy of an optional text.
pub fn copy_text(s: &Option<String>) -> (r: Option<String>)
    ensures
        text_view(r) == text_view(*s),
{
    match s {
        Some(t) => Some(t.clone()),
        None => None,
    }
}

/// All the phrases.
#[derive(Debug, PartialEq)]
pub struct PhraseData {
    pub groups: Vec<Group>,
}

impl View for PhraseData {
    type V = Seq<GroupView>;

    open spec fn view(&self) -> Seq<GroupView> {
        groups_view(self.groups@)
    }
}

impl Clone for PhraseData {
    fn clone(&self) -> (r: Self)
        ensures
            r@ == self@,
    {
        let mut groups: Vec<Group> = Vec::new();
        for i in 0..self.groups.len()
            invariant
                groups_view(groups@) == groups_view(self.groups@).take(i as int),
        {
            let ghost before = groups_view(groups@);
            groups.push(self.groups[i].clone());
            assert(groups_view(groups@) =~= before.push(self.groups[i as int]@));
            assert(groups_view(groups@) =~= groups_view(self.groups@).take(i + 1));
        }
        assert(groups_view(groups@) =~= groups_view(self.groups@));
        PhraseData { groups }
    }
}

/// A phrase that was never copied.
pub open spec fn new_phrase(id: Seq<char>, text: Seq<char>) -> PhraseView {
    PhraseView { id, text, use_count: 0 }
}

/// What a new user starts with: one group with three phrases.
pub open spec fn default_groups() -> Seq<GroupView> {
    seq![
        GroupView {
            id: "g-default"@,
            name: "常用"@,
            icon: Some("star"@),
            phrases: seq![
                new_phrase("p-1"@, "收到,马上处理"@),
                new_phrase("p-2"@, "好的,没问题"@),
                new_phrase(
                    "p-3"@,
                    "您好,感谢您的反馈,我们已经记录了这个问题,会尽快给您答复。"@,
                ),
            ],
        },
    ]
}

impl Default for PhraseData {
    fn default() -> (r: Self)
        ensures
            r@ == default_groups(),
    {
        let mut phrases: Vec<Phrase> = Vec::new();
        phrases.push(Phrase::new("p-1".to_owned(), "收到,马上处理".to_owned()));
        phrases.push(Phrase::new("p-2".to_owned(), "好的,没问题".to_owned()));
        phrases.push(
            Phrase::new(
                "p-3".to_owned(),
                "您好,感谢您的反馈,我们已经记录了这个问题,会尽快给您答复。".to_owned(),
            ),
        );
        let group = Group {
            id: "g-default".to_owned(),
            name: "常用".to_owned(),
            icon: Some("star".to_owned()),
            phrases,
        };
        let mut groups: Vec<Group> = Vec::new();
        groups.push(group);
        let r = PhraseData { groups };
        proof {
            let p = default_groups()[0].phrases;
            assert(r@[0].phrases =~= p);
            assert(r@ =~= default_groups());
        }
        r
    }
}

/// What the user has chosen, but for two sizes that are fractions: how large
/// the pet is drawn and how tall the panel is.
#[derive(Debug, PartialEq)]
pub struct Settings {
    pub pet_id: String,
    /// `acrylic` or `solid`.
    pub theme: String,
    pub pet_pos: Option<(i32, i32)>,
    /// The id of the group that was shown last.
    pub last_group: Option<String>,
    pub custom_pet_dir: Option<String>,
    pub auto_check_update: bool,
    /// Whether the panel shows the phrases that are used most first.
    pub sort_by_use: bool,
}

/// What `Settings` hold.
#[verifier::ext_equal]
pub struct SettingsView {
    pub pet_id: Seq<char>,
    pub theme: Seq<char>,
    pub pet_pos: Option<(i32, i32)>,
    pub last_group: Option<Seq<char>>,
    pub custom_pet_dir: Option<Seq<char>>,
    pub auto_check_update: bool,
    pub sort_by_use: bool,
}

impl View for Settings {
    type V = SettingsView;

    open spec fn view(&self) -> SettingsView {
        SettingsView {
            pet_id: self.pet_id@,
            theme: self.theme@,
            pet_pos: self.pet_pos,
            last_group: text_view(self.last_group),
            custom_pet_dir: text_view(self.custom_pet_dir),
            auto_check_update: self.auto_check_update,
            sort_by_use: self.sort_by_use,
        }
    }
}

impl Clone for Settings {
    fn clone(&self) -> (r: Self)
        ensures
            r@ == self@,
    {
        Settings {
            pet_id: self.pet_id.clone(),
            theme: self.theme.clone(),
            pet_pos: self.pet_pos,
            last_group: copy_text(&self.last_group),
            custom_pet_dir: copy_text(&self.custom_pet_dir),
            auto_check_update: self.auto_check_update,
            sort_by_use: self.sort_by_use,
        }
    }
}

/// The pet that a new user has.
pub fn default_pet_id() -> (r: String)
    ensures
        r@ == "default"@,
{
    "default".to_owned()
}

/// The theme that a new user has.
pub fn default_theme() -> (r: String)
    ensures
        r@ == "acrylic"@,
{
    "acrylic".to_owned()
}

/// A setting that is on for a new user.
pub fn default_true() -> (r: bool)
    ensures
        r,
{
    true
}

/// The settings of a new user.
pub open spec fn default_settings() -> SettingsView {
    SettingsView {
        pet_id: "default"@,
        theme: "acrylic"@,
        pet_pos: None,
        last_group: None,
        custom_pet_dir: None,
        auto_check_update: true,
        sort_by_use: false,
    }
}

impl Default for Settings {
    fn default() -> (r: Self)
        ensures
            r@ == default_settings(),
    {
        Settings {
            pet_id: default_pet_id(),
            theme: default_theme(),
            pet_pos: None,
            last_group: None,
            custom_pet_dir: None,
            auto_check_update: default_true(),
            sort_by_use: false,
        }
    }
}

} // verus!
