//! The pet on the screen: which sheet it is drawn from, what it does to pass
//! the time, and where it may stand.

use crate::anim::{
    grid_from_image, pick_special, Animator, AnimatorView, PetState, FRAMES_PER_STATE, FRAME_H,
    FRAME_W,
};
use crate::clock::rand_ticks;
use crate::storage::{copy_text, text_view};
use crate::text::same;
use vstd::prelude::*;

verus! {

/// A pet that was found.
#[derive(Debug, PartialEq)]
pub struct PetInfo {
    pub id: String,
    pub name: String,
    /// The path of its sprite sheet.
    pub spritesheet: String,
    /// Why it cannot be used, if it cannot.
    pub error: Option<String>,
}

/// What a `PetInfo` holds.
#[verifier::ext_equal]
pub struct PetView {
    pub id: Seq<char>,
    pub name: Seq<char>,
    pub spritesheet: Seq<char>,
    pub error: Option<Seq<char>>,
}

impl View for PetInfo {
    type V = PetView;

    open spec fn view(&self) -> PetView {
        PetView {
            id: self.id@,
            name: self.name@,
            spritesheet: self.spritesheet@,
            error: text_view(self.error),
        }
    }
}

impl Clone for PetInfo {
    fn clone(&self) -> (r: Self)
        ensures
            r@ == self@,
    {
        PetInfo {
            id: self.id.clone(),
            name: self.name.clone(),
            spritesheet: self.spritesheet.clone(),
            error: copy_text(&self.error),
        }
    }
}

/// What a list of pets holds.
pub open spec fn pets_view(pets: Seq<PetInfo>) -> Seq<PetView> {
    pets.map_values(|p: PetInfo| p@)
}

/// What a list of strings holds.
pub open spec fn strings_view(s: Seq<String>) -> Seq<Seq<char>> {
    s.map_values(|t: String| t@)
}

/// The sheets of the pets that can be used, in order.
pub open spec fn usable_sheets(pets: Seq<PetView>) -> Seq<Seq<char>>
    decreases pets.len(),
{
    if pets.len() == 0 {
        Seq::empty()
    } else {
        let before = usable_sheets(pets.drop_last());
        if pets.last().error is None {
            before.push(pets.last().spritesheet)
        } else {
            before
        }
    }
}

/// The sheet of the first pet of that id that can be used, if there is one.
pub open spec fn selected_sheet(pets: Seq<PetView>, pet_id: Seq<char>) -> Option<Seq<char>>
    decreases pets.len(),
{
    if pets.len() == 0 {
        None
    } else {
        match selected_sheet(pets.drop_last(), pet_id) {
            Some(s) => Some(s),
            None => if pets.last().id == pet_id && pets.last().error is None {
                Some(pets.last().spritesheet)
            } else {
                None
            },
        }
    }
}

/// The sheets to try, in order: that of the selected pet, then those of all
/// that can be used.
pub open spec fn sheets_to_try(pets: Seq<PetView>, pet_id: Seq<char>) -> Seq<Seq<char>> {
    match selected_sheet(pets, pet_id) {
        Some(s) => seq![s] + usable_sheets(pets),
        None => usable_sheets(pets),
    }
}

/// The sheets to try until one can be decoded, in order.
pub fn sprite_candidates(pets: &Vec<PetInfo>, pet_id: &str) -> (r: Vec<String>)
    ensures
        strings_view(r@) == sheets_to_try(pets_view(pets@), pet_id@),
{
    let ghost all = pets_view(pets@);
    let mut out: Vec<String> = Vec::new();
    let mut found = false;
    let mut i: usize = 0;
    while i < pets.len() && !found
        invariant
            all == pets_view(pets@),
            i <= pets@.len(),
            !found ==> out@.len() == 0 && selected_sheet(all.take(i as int), pet_id@) is None,
            found ==> out@.len() == 1 && selected_sheet(all, pet_id@) == Some(out@[0]@),
        decreases pets.len() - i,
    {
        assert(all.take(i + 1).drop_last() =~= all.take(i as int));
        assert(all.take(i + 1).last() == pets@[i as int]@);
        if same(pets[i].id.as_str(), pet_id) && pets[i].error.is_none() {
            out.push(pets[i].spritesheet.clone());
            found = true;
            proof {
                lemma_selected_first(all, pet_id@, i + 1);
            }
        }
        i = i + 1;
    }
    if !found {
        assert(all.take(i as int) =~= all);
    }
    let ghost first = strings_view(out@);
    assert(match selected_sheet(all, pet_id@) {
        Some(s) => first =~= seq![s],
        None => first =~= Seq::empty(),
    });
    for j in 0..pets.len()
        invariant
            all == pets_view(pets@),
            strings_view(out@) == first + usable_sheets(all.take(j as int)),
    {
        let ghost before = strings_view(out@);
        assert(all.take(j + 1).drop_last() =~= all.take(j as int));
        assert(all.take(j + 1).last() == pets@[j as int]@);
        if pets[j].error.is_none() {
            let ghost sheet = pets@[j as int].spritesheet@;
            out.push(pets[j].spritesheet.clone());
            assert(strings_view(out@) =~= before.push(sheet));
            assert(first + usable_sheets(all.take(j as int)).push(sheet) =~= before.push(sheet));
        }
    }
    assert(all.take(all.len() as int) =~= all);
    assert(strings_view(out@) =~= sheets_to_try(all, pet_id@));
    out
}

proof fn lemma_selected_first(pets: Seq<PetView>, pet_id: Seq<char>, i: int)
    requires
        0 <= i <= pets.len(),
        selected_sheet(pets.take(i), pet_id) is Some,
    ensures
        selected_sheet(pets, pet_id) == selected_sheet(pets.take(i), pet_id),
    decreases pets.len(),
{
    if i == pets.len() {
        assert(pets.take(i) =~= pets);
    } else {
        assert(pets.drop_last().take(i) =~= pets.take(i));
        lemma_selected_first(pets.drop_last(), pet_id, i);
    }
}

/// Every pet that can be used is tried, and no other.
pub proof fn exactly_the_usable_are_tried(pets: Seq<PetView>, pet_id: Seq<char>, sheet: Seq<char>)
    ensures
        sheets_to_try(pets, pet_id).contains(sheet) <==> exists|i: int|
            0 <= i < pets.len() && (#[trigger] pets[i]).error is None && pets[i].spritesheet
                == sheet,
{
    lemma_usable(pets, sheet);
    lemma_selected_is_usable(pets, pet_id);
    let tried = sheets_to_try(pets, pet_id);
    let usable = usable_sheets(pets);
    match selected_sheet(pets, pet_id) {
        Some(s) => {
            lemma_usable(pets, s);
            if usable.contains(sheet) {
                let k = choose|k: int| 0 <= k < usable.len() && usable[k] == sheet;
                assert(tried[k + 1] == sheet);
            }
            if tried.contains(sheet) {
                let k = choose|k: int| 0 <= k < tried.len() && tried[k] == sheet;
                if k > 0 {
                    assert(usable[k - 1] == sheet);
                }
            }
        },
        None => {},
    }
}

proof fn lemma_selected_is_usable(pets: Seq<PetView>, pet_id: Seq<char>)
    ensures
        selected_sheet(pets, pet_id) is Some ==> usable_sheets(pets).contains(
            selected_sheet(pets, pet_id)->0,
        ),
    decreases pets.len(),
{
    if pets.len() > 0 {
        lemma_selected_is_usable(pets.drop_last(), pet_id);
        let before = usable_sheets(pets.drop_last());
        let all = usable_sheets(pets);
        if selected_sheet(pets, pet_id) is Some {
            let s = selected_sheet(pets, pet_id)->0;
            if before.contains(s) {
                let k = choose|k: int| 0 <= k < before.len() && before[k] == s;
                assert(all[k] == s);
            } else {
                assert(all[before.len() as int] == s);
            }
        }
    }
}

proof fn lemma_usable(pets: Seq<PetView>, sheet: Seq<char>)
    ensures
        usable_sheets(pets).contains(sheet) <==> exists|i: int|
            0 <= i < pets.len() && (#[trigger] pets[i]).error is None && pets[i].spritesheet
                == sheet,
    decreases pets.len(),
{
    if pets.len() > 0 {
        let first = pets.drop_last();
        lemma_usable(first, sheet);
        let before = usable_sheets(first);
        let all = usable_sheets(pets);
        if all.contains(sheet) {
            let k = choose|k: int| 0 <= k < all.len() && all[k] == sheet;
            if k < before.len() {
                assert(before[k] == sheet);
                let i = choose|i: int|
                    0 <= i < first.len() && (#[trigger] first[i]).error is None
                        && first[i].spritesheet == sheet;
                assert(pets[i] == first[i]);
            } else {
                assert(pets[pets.len() - 1].spritesheet == sheet);
            }
        }
        if exists|i: int|
            0 <= i < pets.len() && (#[trigger] pets[i]).error is None && pets[i].spritesheet
                == sheet {
            let i = choose|i: int|
                0 <= i < pets.len() && (#[trigger] pets[i]).error is None && pets[i].spritesheet
                    == sheet;
            if i < first.len() {
                assert(first[i] == pets[i]);
                let k = choose|k: int| 0 <= k < before.len() && before[k] == sheet;
                assert(all[k] == sheet);
            } else {
                assert(all[before.len() as int] == sheet);
            }
        }
    }
}

/// What to do about the sheet of the pet.
#[derive(Debug, PartialEq)]
pub enum SheetStep {
    /// Try to decode this sheet.
    Try(String),
    /// Draw the pet from this sheet.
    Show(String),
    /// Show that there is no pet to draw.
    Missing,
}

/// What a `SheetStep` says.
#[verifier::ext_equal]
pub enum SheetStepView {
    Try(Seq<char>),
    Show(Seq<char>),
    Missing,
}

impl View for SheetStep {
    type V = SheetStepView;

    open spec fn view(&self) -> SheetStepView {
        match self {
            SheetStep::Try(s) => SheetStepView::Try(s@),
            SheetStep::Show(s) => SheetStepView::Show(s@),
            SheetStep::Missing => SheetStepView::Missing,
        }
    }
}

/// What to do once `tried` of the sheets were tried, of which only the last may
/// have been decoded.
pub open spec fn step_after_tries(
    candidates: Seq<Seq<char>>,
    tried: int,
    decoded: bool,
) -> SheetStepView {
    if decoded && 0 < tried <= candidates.len() {
        SheetStepView::Show(candidates[tried - 1])
    } else if 0 <= tried < candidates.len() {
        SheetStepView::Try(candidates[tried])
    } else {
        SheetStepView::Missing
    }
}

/// What to do once `tried` of the sheets were tried, of which only the last may
/// have been decoded.
pub fn sheet_step(candidates: &Vec<String>, tried: usize, decoded: bool) -> (r: SheetStep)
    ensures
        r@ == step_after_tries(strings_view(candidates@), tried as int, decoded),
{
    if decoded && 0 < tried && tried <= candidates.len() {
        SheetStep::Show(candidates[tried - 1].clone())
    } else if tried < candidates.len() {
        SheetStep::Try(candidates[tried].clone())
    } else {
        SheetStep::Missing
    }
}

/// What trying the sheets comes to, where `decodes` says of each whether it can
/// be decoded.
pub open spec fn tries_come_to(
    candidates: Seq<Seq<char>>,
    decodes: spec_fn(Seq<char>) -> bool,
    tried: int,
    decoded: bool,
) -> SheetStepView
    decreases candidates.len() - tried,
{
    match step_after_tries(candidates, tried, decoded) {
        SheetStepView::Try(s) => if tried < candidates.len() {
            tries_come_to(candidates, decodes, tried + 1, decodes(s))
        } else {
            SheetStepView::Missing
        },
        step => step,
    }
}

proof fn lemma_tries(
    candidates: Seq<Seq<char>>,
    decodes: spec_fn(Seq<char>) -> bool,
    tried: int,
)
    requires
        0 <= tried <= candidates.len(),
    ensures
        match tries_come_to(candidates, decodes, tried, false) {
            SheetStepView::Show(s) => exists|i: int|
                tried <= i < candidates.len() && #[trigger] candidates[i] == s && decodes(s)
                    && forall|k: int| tried <= k < i ==> !decodes(#[trigger] candidates[k]),
            SheetStepView::Missing => forall|i: int|
                tried <= i < candidates.len() ==> !decodes(#[trigger] candidates[i]),
            SheetStepView::Try(s) => false,
        },
    decreases candidates.len() - tried,
{
    if tried < candidates.len() {
        reveal_with_fuel(tries_come_to, 2);
        if decodes(candidates[tried]) {
            assert(tries_come_to(candidates, decodes, tried, false) == SheetStepView::Show(
                candidates[tried],
            ));
        } else {
            assert(tries_come_to(candidates, decodes, tried + 1, decodes(candidates[tried]))
                == tries_come_to(candidates, decodes, tried + 1, false));
            lemma_tries(candidates, decodes, tried + 1);
        }
    }
}

/// The pet at `i` is the first that can be used and whose sheet can be decoded.
pub open spec fn is_first_drawable(
    pets: Seq<PetView>,
    decodes: spec_fn(Seq<char>) -> bool,
    i: int,
) -> bool {
    &&& 0 <= i < pets.len()
    &&& pets[i].error is None
    &&& decodes(pets[i].spritesheet)
    &&& forall|k: int|
        0 <= k < i && (#[trigger] pets[k]).error is None ==> !decodes(pets[k].spritesheet)
}

proof fn lemma_first_drawable(pets: Seq<PetView>, decodes: spec_fn(Seq<char>) -> bool, j: int)
    requires
        0 <= j < usable_sheets(pets).len(),
        decodes(usable_sheets(pets)[j]),
        forall|k: int| 0 <= k < j ==> !decodes(#[trigger] usable_sheets(pets)[k]),
    ensures
        exists|i: int| #[trigger]
            is_first_drawable(pets, decodes, i) && pets[i].spritesheet == usable_sheets(pets)[j],
    decreases pets.len(),
{
    let first = pets.drop_last();
    let before = usable_sheets(first);
    let all = usable_sheets(pets);
    assert(forall|k: int| 0 <= k < before.len() ==> #[trigger] all[k] == before[k]);
    if j < before.len() {
        assert(forall|k: int| 0 <= k < j ==> all[k] == #[trigger] before[k]);
        lemma_first_drawable(first, decodes, j);
        let i = choose|i: int| #[trigger]
            is_first_drawable(first, decodes, i) && first[i].spritesheet == before[j];
        assert(pets[i] == first[i]);
        assert forall|k: int| 0 <= k < i && (#[trigger] pets[k]).error is None implies !decodes(
            pets[k].spritesheet,
        ) by {
            assert(first[k] == pets[k]);
        }
        assert(is_first_drawable(pets, decodes, i));
    } else {
        let i = pets.len() - 1;
        assert forall|k: int| 0 <= k < i && (#[trigger] pets[k]).error is None implies !decodes(
            pets[k].spritesheet,
        ) by {
            assert(first[k] == pets[k]);
            lemma_usable(first, pets[k].spritesheet);
            let n = choose|n: int| 0 <= n < before.len() && before[n] == pets[k].spritesheet;
            assert(all[n] == before[n]);
        }
        assert(is_first_drawable(pets, decodes, i));
    }
}

/// The pet is drawn from the first of the sheets to try that can be decoded:
/// that of the pet that was selected, if it can be; else that of the first pet
/// that can be used whose sheet can be decoded. The pet is missing only if none
/// can.
pub proof fn a_pet_is_drawn_if_any_can_be(
    pets: Seq<PetView>,
    pet_id: Seq<char>,
    decodes: spec_fn(Seq<char>) -> bool,
)
    ensures
        match tries_come_to(sheets_to_try(pets, pet_id), decodes, 0, false) {
            SheetStepView::Show(s) => {
                &&& exists|i: int|
                    0 <= i < sheets_to_try(pets, pet_id).len() && #[trigger] sheets_to_try(
                        pets,
                        pet_id,
                    )[i] == s && decodes(s) && forall|k: int|
                        0 <= k < i ==> !decodes(#[trigger] sheets_to_try(pets, pet_id)[k])
                &&& if selected_sheet(pets, pet_id) is Some && decodes(
                    selected_sheet(pets, pet_id)->0,
                ) {
                    s == selected_sheet(pets, pet_id)->0
                } else {
                    exists|i: int| #[trigger]
                        is_first_drawable(pets, decodes, i) && pets[i].spritesheet == s
                }
            },
            SheetStepView::Missing => forall|i: int|
                0 <= i < pets.len() && (#[trigger] pets[i]).error is None ==> !decodes(
                    pets[i].spritesheet,
                ),
            SheetStepView::Try(s) => false,
        },
{
    let candidates = sheets_to_try(pets, pet_id);
    lemma_tries(candidates, decodes, 0);
    match tries_come_to(candidates, decodes, 0, false) {
        SheetStepView::Show(s) => {
            let j = choose|j: int|
                0 <= j < candidates.len() && #[trigger] candidates[j] == s && decodes(s)
                    && forall|k: int| 0 <= k < j ==> !decodes(#[trigger] candidates[k]);
            let usable = usable_sheets(pets);
            match selected_sheet(pets, pet_id) {
                Some(first) => {
                    assert(candidates[0] == first);
                    if !decodes(first) {
                        assert forall|k: int| 0 <= k < j - 1 implies !decodes(
                            #[trigger] usable[k],
                        ) by {
                            assert(candidates[k + 1] == usable[k]);
                        }
                        lemma_first_drawable(pets, decodes, j - 1);
                    }
                },
                None => {
                    lemma_first_drawable(pets, decodes, j);
                },
            }
        },
        SheetStepView::Missing => {
            assert forall|i: int| 0 <= i < pets.len() && (#[trigger] pets[i]).error is None implies
                !decodes(pets[i].spritesheet) by {
                exactly_the_usable_are_tried(pets, pet_id, pets[i].spritesheet);
            }
        },
        SheetStepView::Try(s) => {},
    }
}

/// The animator for a sheet whose image has that size, idling.
pub open spec fn animator_of_image(w: u32, h: u32) -> AnimatorView {
    let cols = crate::anim::max_of(w as int / FRAME_W as int, 1);
    AnimatorView {
        rows: crate::anim::max_of(h as int / FRAME_H as int, 1),
        frames: if cols < FRAMES_PER_STATE {
            cols
        } else {
            FRAMES_PER_STATE as int
        },
        state: PetState::Idle,
        once: false,
        frame: 0,
    }
}

/// An animator for a sheet whose image has that size.
pub fn animator_for_image(w: u32, h: u32) -> (r: Animator)
    ensures
        r@ == animator_of_image(w, h),
        r@.valid(),
{
    let (rows, cols): (i32, i32) = grid_from_image(w, h);
    Animator::new(rows, cols)
}

/// What the pet on the desktop is drawn from.
pub struct Sprite {
    pub animator: Animator,
    /// The sheet it is drawn from, if there is one.
    pub sheet: Option<String>,
    /// Whether there is no pet to draw.
    pub missing: bool,
}

/// What a `Sprite` holds.
#[verifier::ext_equal]
pub struct SpriteView {
    pub animator: AnimatorView,
    pub sheet: Option<Seq<char>>,
    pub missing: bool,
}

impl View for Sprite {
    type V = SpriteView;

    open spec fn view(&self) -> SpriteView {
        SpriteView {
            animator: self.animator@,
            sheet: text_view(self.sheet),
            missing: self.missing,
        }
    }
}

impl SpriteView {
    /// Drawn from a sheet whose image has that size.
    pub open spec fn drawn_from(sheet: Seq<char>, size: (u32, u32)) -> SpriteView {
        SpriteView {
            animator: animator_of_image(size.0, size.1),
            sheet: Some(sheet),
            missing: false,
        }
    }

    /// With no sheet to be drawn from.
    pub open spec fn without_sheet(self) -> SpriteView {
        SpriteView { sheet: None, missing: true, ..self }
    }

    /// Once `tried` of the sheets were tried, where `size` is that of the last
    /// one's image if it was decoded.
    pub open spec fn after_tries(
        self,
        candidates: Seq<Seq<char>>,
        tried: int,
        size: Option<(u32, u32)>,
    ) -> SpriteView {
        match step_after_tries(candidates, tried, size is Some) {
            SheetStepView::Try(s) => self,
            SheetStepView::Show(s) => SpriteView::drawn_from(s, size->0),
            SheetStepView::Missing => self.without_sheet(),
        }
    }

    /// Once all the sheets were tried that need to be, where `sizes` gives the
    /// size of the image of each that can be decoded.
    pub open spec fn after_search(
        self,
        candidates: Seq<Seq<char>>,
        sizes: spec_fn(Seq<char>) -> Option<(u32, u32)>,
        tried: int,
        size: Option<(u32, u32)>,
    ) -> SpriteView
        decreases candidates.len() - tried,
    {
        let now = self.after_tries(candidates, tried, size);
        match step_after_tries(candidates, tried, size is Some) {
            SheetStepView::Try(s) => if tried < candidates.len() {
                now.after_search(candidates, sizes, tried + 1, sizes(s))
            } else {
                now
            },
            _ => now,
        }
    }
}

impl Sprite {
    /// A pet before any sheet was tried.
    pub fn new() -> (r: Self)
        ensures
            r@ == (SpriteView {
                animator: AnimatorView {
                    rows: 1,
                    frames: 1,
                    state: PetState::Idle,
                    once: false,
                    frame: 0,
                },
                sheet: None,
                missing: false,
            }),
    {
        Sprite { animator: Animator::new(1, 1), sheet: None, missing: false }
    }

    /// What to do once `tried` of the sheets were tried, where `size` is that of
    /// the last one's image if it was decoded. The pet gets an animator for the
    /// sheet that was decoded, and keeps the one it has as long as none is.
    pub fn sheet_tried(
        &mut self,
        candidates: &Vec<String>,
        tried: usize,
        size: Option<(u32, u32)>,
    ) -> (r: SheetStep)
        ensures
            r@ == step_after_tries(strings_view(candidates@), tried as int, size is Some),
            final(self)@ == old(self)@.after_tries(strings_view(candidates@), tried as int, size),
    {
        let step = sheet_step(candidates, tried, size.is_some());
        match &step {
            SheetStep::Try(_) => {},
            SheetStep::Show(s) => {
                if let Some((w, h)) = size {
                    self.animator = animator_for_image(w, h);
                    self.sheet = Some(s.clone());
                    self.missing = false;
                }
            },
            SheetStep::Missing => {
                self.sheet = None;
                self.missing = true;
            },
        }
        step
    }
}

proof fn lemma_search(
    sprite: SpriteView,
    candidates: Seq<Seq<char>>,
    sizes: spec_fn(Seq<char>) -> Option<(u32, u32)>,
    tried: int,
    size: Option<(u32, u32)>,
)
    requires
        0 <= tried <= candidates.len(),
        size == if tried > 0 {
            sizes(candidates[tried - 1])
        } else {
            None
        },
    ensures
        ({
            let decodes = |s: Seq<char>| sizes(s) is Some;
            let r = sprite.after_search(candidates, sizes, tried, size);
            match tries_come_to(candidates, decodes, tried, size is Some) {
                SheetStepView::Show(s) => r == SpriteView::drawn_from(s, sizes(s)->0),
                SheetStepView::Missing => r == sprite.without_sheet(),
                SheetStepView::Try(s) => false,
            }
        }),
    decreases candidates.len() - tried,
{
    if tried < candidates.len() && size is None {
        lemma_search(sprite, candidates, sizes, tried + 1, sizes(candidates[tried]));
    }
}

/// Once the sheets were tried, the pet is drawn from the first of them that can
/// be decoded, with an animator for that very sheet; or none of a pet that can
/// be used can be decoded, and the pet is missing and keeps its animator.
pub proof fn the_sprite_is_that_of_the_sheet_drawn(
    sprite: SpriteView,
    pets: Seq<PetView>,
    pet_id: Seq<char>,
    sizes: spec_fn(Seq<char>) -> Option<(u32, u32)>,
)
    ensures
        ({
            let decodes = |s: Seq<char>| sizes(s) is Some;
            let candidates = sheets_to_try(pets, pet_id);
            let r = sprite.after_search(candidates, sizes, 0, None);
            if exists|i: int|
                0 <= i < pets.len() && (#[trigger] pets[i]).error is None && decodes(
                    pets[i].spritesheet,
                ) {
                exists|i: int|
                    0 <= i < candidates.len() && decodes(#[trigger] candidates[i]) && (forall|
                        k: int,
                    |
                        0 <= k < i ==> !decodes(#[trigger] candidates[k])) && r
                        == SpriteView::drawn_from(candidates[i], sizes(candidates[i])->0)
            } else {
                r == sprite.without_sheet()
            }
        }),
{
    let decodes = |s: Seq<char>| sizes(s) is Some;
    let candidates = sheets_to_try(pets, pet_id);
    lemma_search(sprite, candidates, sizes, 0, None);
    lemma_tries(candidates, decodes, 0);
    a_pet_is_drawn_if_any_can_be(pets, pet_id, decodes);
    match tries_come_to(candidates, decodes, 0, false) {
        SheetStepView::Show(s) => {
            exactly_the_usable_are_tried(pets, pet_id, s);
        },
        _ => {},
    }
}

/// What choosing the pet at `i` in the list may lead to: its id and its sheet,
/// if there is such a pet and it can be used.
pub fn pet_at(pets: &Vec<PetInfo>, i: i32) -> (r: Option<(String, String)>)
    ensures
        match r {
            Some((id, sheet)) => {
                &&& 0 <= i < pets@.len()
                &&& pets@[i as int].error is None
                &&& id@ == pets@[i as int].id@
                &&& sheet@ == pets@[i as int].spritesheet@
            },
            None => !(0 <= i < pets@.len() && pets@[i as int].error is None),
        },
{
    if i < 0 || i as usize >= pets.len() {
        return None;
    }
    let p = &pets[i as usize];
    if p.error.is_some() {
        None
    } else {
        Some((p.id.clone(), p.spritesheet.clone()))
    }
}

/// Whether a picture kept for `sheet` is still wanted: some pet has the sheet.
pub fn is_listed(pets: &Vec<PetInfo>, sheet: &str) -> (r: bool)
    ensures
        r == exists|i: int| 0 <= i < pets@.len() && (#[trigger] pets@[i]).spritesheet@ == sheet@,
{
    for i in 0..pets.len()
        invariant
            forall|k: int| 0 <= k < i ==> (#[trigger] pets@[k]).spritesheet@ != sheet@,
    {
        if same(pets[i].spritesheet.as_str(), sheet) {
            return true;
        }
    }
    false
}

/// The directories to look for pets in, in order, of those that there are.
pub fn pet_roots<P>(beside_program: Option<P>, in_home: Option<P>, custom: Option<P>) -> (r: Vec<P>)
    ensures
        r@ == present(beside_program) + present(in_home) + present(custom),
{
    let mut roots: Vec<P> = Vec::new();
    if let Some(p) = beside_program {
        roots.push(p);
    }
    if let Some(p) = in_home {
        roots.push(p);
    }
    if let Some(p) = custom {
        roots.push(p);
    }
    assert(roots@ =~= present(beside_program) + present(in_home) + present(custom));
    roots
}

/// What there is, as a sequence of at most one.
pub open spec fn present<P>(p: Option<P>) -> Seq<P> {
    match p {
        Some(x) => seq![x],
        None => Seq::empty(),
    }
}

/// How long the pet has idled, and when it will do something to pass the time.
#[verifier::ext_equal]
pub struct IdleView {
    pub idle_ticks: int,
    pub next_special: int,
}

impl IdleView {
    /// The time to do something is ahead, and within the limits that chance has.
    pub open spec fn valid(self) -> bool {
        0 <= self.idle_ticks < self.next_special && 90 <= self.next_special <= 330
    }

    /// Whether this frame is the one.
    pub open spec fn is_due(self, a: AnimatorView) -> bool {
        a.state == PetState::Idle && self.idle_ticks + 1 >= self.next_special
    }

    /// One frame later, where `fresh` is the next time if one is needed.
    pub open spec fn ticked(self, a: AnimatorView, fresh: int) -> IdleView {
        if self.is_due(a) {
            IdleView { idle_ticks: 0, next_special: fresh }
        } else if a.state == PetState::Idle {
            IdleView { idle_ticks: self.idle_ticks + 1, ..self }
        } else {
            IdleView { idle_ticks: 0, ..self }
        }
    }

    /// What is played at this frame.
    pub open spec fn playing(self, a: AnimatorView, fresh: int) -> AnimatorView {
        if self.is_due(a) {
            match crate::anim::special_picked(a.rows, fresh as nat) {
                Some(s) => a.playing(s, true),
                None => a,
            }
        } else {
            a
        }
    }
}

/// Counts the frames that the pet idles.
pub struct IdleClock {
    idle_ticks: i32,
    next_special: i32,
}

impl View for IdleClock {
    type V = IdleView;

    closed spec fn view(&self) -> IdleView {
        IdleView { idle_ticks: self.idle_ticks as int, next_special: self.next_special as int }
    }
}

impl IdleClock {
    #[verifier::type_invariant]
    closed spec fn well_formed(self) -> bool {
        self@.valid()
    }

    /// A clock that starts now, with the first time to do something given.
    pub fn starting(next_special: i32) -> (r: Self)
        requires
            90 <= next_special <= 330,
        ensures
            r@ == (IdleView { idle_ticks: 0, next_special: next_special as int }),
            r@.valid(),
    {
        IdleClock { idle_ticks: 0, next_special }
    }

    /// A clock that starts now, with the first time to do something at random.
    pub fn new() -> (r: Self)
        ensures
            r@.idle_ticks == 0,
            r@.valid(),
    {
        IdleClock::starting(rand_ticks())
    }

    /// Whether the next frame is the one to do something at.
    fn is_due(&self, animator: &Animator) -> (r: bool)
        ensures
            r == self@.is_due(animator@),
    {
        proof {
            use_type_invariant(self);
        }
        animator.is_idle() && self.idle_ticks + 1 >= self.next_special
    }

    /// One frame: the cell of the sheet to show. `fresh` is the next time to do
    /// something, which is used only if this is the time, and then also picks
    /// what is done.
    pub fn frame_with(&mut self, animator: &mut Animator, fresh: i32) -> (r: (i32, i32))
        requires
            90 <= fresh <= 330,
        ensures
            old(self)@.valid(),
            final(self)@ == old(self)@.ticked(old(animator)@, fresh as int),
            (r.0 as int, r.1 as int) == old(self)@.playing(old(animator)@, fresh as int).cell(),
            final(animator)@ == old(self)@.playing(old(animator)@, fresh as int).stepped(),
    {
        proof {
            use_type_invariant(&*self);
        }
        if self.is_due(animator) {
            *self = IdleClock { idle_ticks: 0, next_special: fresh };
            if let Some(s) = pick_special(animator.rows(), fresh as u32) {
                animator.play(s, true);
            }
        } else if animator.is_idle() {
            *self =
            IdleClock { idle_ticks: self.idle_ticks + 1, next_special: self.next_special };
        } else {
            *self = IdleClock { idle_ticks: 0, next_special: self.next_special };
        }
        animator.step()
    }

    /// One frame, with chance to say when something is done next.
    pub fn frame(&mut self, animator: &mut Animator) -> (r: (i32, i32))
        ensures
            exists|fresh: int|
                90 <= fresh <= 330 && #[trigger] old(self)@.ticked(old(animator)@, fresh)
                    == final(self)@ && (r.0 as int, r.1 as int) == old(self)@.playing(
                    old(animator)@,
                    fresh,
                ).cell() && final(animator)@ == old(self)@.playing(
                    old(animator)@,
                    fresh,
                ).stepped(),
            !old(self)@.is_due(old(animator)@) ==> final(self)@ == old(self)@.ticked(
                old(animator)@,
                90,
            ) && (r.0 as int, r.1 as int) == old(animator)@.cell() && final(animator)@ == old(
                animator,
            )@.stepped(),
    {
        let fresh: i32 = if self.is_due(animator) {
            rand_ticks()
        } else {
            90
        };
        let r = self.frame_with(animator, fresh);
        assert(old(self)@.ticked(old(animator)@, fresh as int) == self@);
        r
    }
}

/// The clock and the animator after `n` frames, where `fresh` is what chance
/// gives at each of them.
pub open spec fn frames_later(c: IdleView, a: AnimatorView, fresh: spec_fn(nat) -> int, n: nat) -> (
    IdleView,
    AnimatorView,
)
    decreases n,
{
    if n == 0 {
        (c, a)
    } else {
        let (c1, a1) = frames_later(c, a, fresh, (n - 1) as nat);
        (c1.ticked(a1, fresh((n - 1) as nat)), c1.playing(a1, fresh((n - 1) as nat)).stepped())
    }
}

/// A pet that idles goes on idling until the time to do something is there, and
/// at that very frame, if its sheet has something to show, it starts it.
pub proof fn something_is_done_in_time(
    c: IdleView,
    a: AnimatorView,
    fresh: spec_fn(nat) -> int,
    n: nat,
)
    requires
        c.valid(),
        a.valid(),
        a.state == PetState::Idle,
        n < c.next_special - c.idle_ticks,
    ensures
        frames_later(c, a, fresh, n).1.state == PetState::Idle,
        frames_later(c, a, fresh, n).0 == (IdleView { idle_ticks: c.idle_ticks + n, ..c }),
        frames_later(c, a, fresh, n).0.is_due(frames_later(c, a, fresh, n).1) <==> n
            == c.next_special - c.idle_ticks - 1,
        frames_later(c, a, fresh, n).1.rows == a.rows,
        a.rows > 2 && n == c.next_special - c.idle_ticks - 1 ==> {
            let (c1, a1) = frames_later(c, a, fresh, n);
            &&& c1.playing(a1, fresh(n)).state != PetState::Idle
            &&& c1.playing(a1, fresh(n)).state != PetState::Wave
            &&& c1.playing(a1, fresh(n)).frame == 0
        },
    decreases n,
{
    if n > 0 {
        something_is_done_in_time(c, a, fresh, (n - 1) as nat);
        lemma_idles_on(c, a, fresh, (n - 1) as nat);
    }
    let avail = crate::anim::available_specials(a.rows);
    crate::anim::short_sheets_have_no_specials(a.rows);
    if avail.len() > 0 {
        let k = (fresh(n) as nat) as int % avail.len() as int;
        vstd::arithmetic::div_mod::lemma_mod_bound((fresh(n) as nat) as int, avail.len() as int);
        crate::anim::specials_are_on_the_sheet(a.rows, k);
    }
}

proof fn lemma_idles_on(c: IdleView, a: AnimatorView, fresh: spec_fn(nat) -> int, n: nat)
    requires
        c.valid(),
        a.valid(),
        a.state == PetState::Idle,
        n < c.next_special - c.idle_ticks,
    ensures
        frames_later(c, a, fresh, n).1.valid(),
        frames_later(c, a, fresh, n).1.state == PetState::Idle,
    decreases n,
{
    if n > 0 {
        lemma_idles_on(c, a, fresh, (n - 1) as nat);
        something_is_done_in_time(c, a, fresh, (n - 1) as nat);
    }
}

/// A rectangle on the desktop, in pixels.
#[derive(Debug, Clone, Copy, PartialEq, Eq, Structural)]
pub struct Area {
    pub x: i32,
    pub y: i32,
    pub w: i32,
    pub h: i32,
}

impl Area {
    /// No side is negative, and the far edges have coordinates.
    pub open spec fn valid(self) -> bool {
        &&& 0 <= self.w
        &&& 0 <= self.h
        &&& self.x + self.w <= i32::MAX
        &&& self.y + self.h <= i32::MAX
    }

    /// The point in the middle.
    pub open spec fn center(self) -> (int, int) {
        (self.x + self.w as int / 2, self.y + self.h as int / 2)
    }

    /// The point is inside.
    pub open spec fn has(self, p: (int, int)) -> bool {
        self.x <= p.0 < self.x + self.w && self.y <= p.1 < self.y + self.h
    }
}

/// The middle of the pet is on some monitor.
pub open spec fn is_visible(pet: Area, monitors: Seq<Area>) -> bool {
    exists|i: int| 0 <= i < monitors.len() && (#[trigger] monitors[i]).has(pet.center())
}

/// The monitor that a pet is brought back to.
pub open spec fn home_monitor(monitors: Seq<Area>, primary: Option<Area>) -> Option<Area> {
    if primary is Some {
        primary
    } else if monitors.len() > 0 {
        Some(monitors[0])
    } else {
        None
    }
}

/// Where a pet stands on the monitor it is brought back to: near the bottom
/// right corner, clear of the task bar, and never to the left of the monitor or
/// above it.
pub open spec fn home_position(pet: Area, m: Area) -> (int, int) {
    (
        crate::anim::max_of(m.x + m.w - pet.w - 80, m.x as int),
        crate::anim::max_of(m.y + m.h - pet.h - 120, m.y as int),
    )
}

/// Where to move the pet, if it has to be moved: a pet whose middle is on no
/// monitor is brought back to the primary one, or else to the first there is.
pub fn clamp_pet_to_screen(pet: Area, monitors: &Vec<Area>, primary: Option<Area>) -> (r: Option<
    (i32, i32),
>)
    requires
        0 <= pet.w,
        0 <= pet.h,
        pet.x + pet.w as int / 2 <= i32::MAX,
        pet.y + pet.h as int / 2 <= i32::MAX,
        forall|i: int| 0 <= i < monitors@.len() ==> (#[trigger] monitors@[i]).valid(),
        primary is Some ==> primary->0.valid(),
    ensures
        match r {
            Some((x, y)) => {
                &&& !is_visible(pet, monitors@)
                &&& home_monitor(monitors@, primary) is Some
                &&& (x as int, y as int) == home_position(pet, home_monitor(monitors@, primary)->0)
            },
            None => is_visible(pet, monitors@) || home_monitor(monitors@, primary) is None,
        },
{
    let cx: i32 = pet.x + pet.w / 2;
    let cy: i32 = pet.y + pet.h / 2;
    for i in 0..monitors.len()
        invariant
            0 <= pet.w,
            0 <= pet.h,
            cx == pet.center().0,
            cy == pet.center().1,
            forall|k: int| 0 <= k < monitors@.len() ==> (#[trigger] monitors@[k]).valid(),
            forall|k: int| 0 <= k < i ==> !(#[trigger] monitors@[k]).has(pet.center()),
    {
        let m = monitors[i];
        if cx >= m.x && cx < m.x + m.w && cy >= m.y && cy < m.y + m.h {
            assert(monitors@[i as int].has(pet.center()));
            return None;
        }
    }
    let home = match primary {
        Some(m) => m,
        None => {
            if monitors.len() == 0 {
                return None;
            }
            monitors[0]
        },
    };
    let x: i64 = home.x as i64 + home.w as i64 - pet.w as i64 - 80;
    let y: i64 = home.y as i64 + home.h as i64 - pet.h as i64 - 120;
    Some(
        (
            if x > home.x as i64 {
                x as i32
            } else {
                home.x
            },
            if y > home.y as i64 {
                y as i32
            } else {
                home.y
            },
        ),
    )
}

/// A pet that was brought back is in sight, so that it stays where it is: more
/// than half of it must fit on the monitor each way, and that monitor must be
/// one of those there are.
pub proof fn brought_back_is_in_sight(
    pet: Area,
    monitors: Seq<Area>,
    primary: Option<Area>,
    moved: Area,
)
    requires
        0 <= pet.w,
        0 <= pet.h,
        home_monitor(monitors, primary) is Some,
        monitors.contains(home_monitor(monitors, primary)->0),
        pet.w as int / 2 < home_monitor(monitors, primary)->0.w,
        pet.h as int / 2 < home_monitor(monitors, primary)->0.h,
        (moved.x as int, moved.y as int) == home_position(
            pet,
            home_monitor(monitors, primary)->0,
        ),
        moved.w == pet.w,
        moved.h == pet.h,
    ensures
        is_visible(moved, monitors),
{
    let m = home_monitor(monitors, primary)->0;
    let i = choose|i: int| 0 <= i < monitors.len() && monitors[i] == m;
    assert(monitors[i].has(moved.center()));
}

/// A pet that was found under that id and that can be used.
pub open spec fn is_usable_as(p: PetView, pet_id: Seq<char>) -> bool {
    p.id == pet_id && p.error is None
}

/// The sheet of the selected pet is that of the first pet of its id that can be
/// used; there is none where no pet of that id can be.
pub proof fn the_selected_pet_is_the_first_of_its_id(pets: Seq<PetView>, pet_id: Seq<char>)
    ensures
        match selected_sheet(pets, pet_id) {
            Some(s) => exists|i: int|
                0 <= i < pets.len() && is_usable_as(#[trigger] pets[i], pet_id)
                    && pets[i].spritesheet == s && forall|k: int|
                    0 <= k < i ==> !is_usable_as(#[trigger] pets[k], pet_id),
            None => forall|i: int|
                0 <= i < pets.len() ==> !is_usable_as(#[trigger] pets[i], pet_id),
        },
    decreases pets.len(),
{
    if pets.len() > 0 {
        let first = pets.drop_last();
        the_selected_pet_is_the_first_of_its_id(first, pet_id);
        match selected_sheet(first, pet_id) {
            Some(s) => {
                let i = choose|i: int|
                    0 <= i < first.len() && is_usable_as(#[trigger] first[i], pet_id)
                        && first[i].spritesheet == s && forall|k: int|
                        0 <= k < i ==> !is_usable_as(#[trigger] first[k], pet_id);
                assert(pets[i] == first[i]);
                assert forall|k: int| 0 <= k < i implies !is_usable_as(
                    #[trigger] pets[k],
                    pet_id,
                ) by {
                    assert(pets[k] == first[k]);
                }
            },
            None => {
                let n = pets.len() - 1;
                assert forall|k: int| 0 <= k < n implies !is_usable_as(
                    #[trigger] pets[k],
                    pet_id,
                ) by {
                    assert(pets[k] == first[k]);
                }
                assert(pets[n] == pets.last());
            },
        }
    }
}

/// The sheets that can be tried are those of the pets that can be used, in the
/// order of the pets, after that of the selected one.
pub proof fn sheets_are_tried_in_order(pets: Seq<PetView>, pet_id: Seq<char>)
    ensures
        ({
            let usable = pets.filter(|p: PetView| p.error is None);
            let tried = sheets_to_try(pets, pet_id);
            let n = if selected_sheet(pets, pet_id) is Some {
                1int
            } else {
                0int
            };
            &&& tried.len() == n + usable.len()
            &&& n == 1 ==> Some(tried[0]) == selected_sheet(pets, pet_id)
            &&& forall|k: int|
                0 <= k < usable.len() ==> tried[n + k] == (#[trigger] usable[k]).spritesheet
        }),
{
    lemma_usable_are_filtered(pets);
    let usable = pets.filter(|p: PetView| p.error is None);
    let sheets = usable_sheets(pets);
    let tried = sheets_to_try(pets, pet_id);
    let n = if selected_sheet(pets, pet_id) is Some {
        1int
    } else {
        0int
    };
    assert forall|k: int| 0 <= k < usable.len() implies tried[n + k] == (
    #[trigger] usable[k]).spritesheet by {
        assert(tried[n + k] == sheets[k]);
    }
}

proof fn lemma_usable_are_filtered(pets: Seq<PetView>)
    ensures
        ({
            let usable = pets.filter(|p: PetView| p.error is None);
            let sheets = usable_sheets(pets);
            &&& sheets.len() == usable.len()
            &&& forall|k: int|
                0 <= k < usable.len() ==> #[trigger] sheets[k] == usable[k].spritesheet
        }),
    decreases pets.len(),
{
    reveal_with_fuel(Seq::<_>::filter, 1);
    if pets.len() > 0 {
        lemma_usable_are_filtered(pets.drop_last());
    }
}

/// A sheet has as many rows as whole frames fit in its height, and a round as
/// many frames as fit in its width, up to six; there is at least one of each.
pub proof fn an_image_holds_its_frames(w: u32, h: u32)
    ensures
        ({
            let a = animator_of_image(w, h);
            &&& a.rows >= 1 && 1 <= a.frames <= 6
            &&& h >= 208 ==> a.rows * 208 <= h < (a.rows + 1) * 208
            &&& h < 208 ==> a.rows == 1
            &&& w < 192 ==> a.frames == 1
            &&& w >= 192 ==> a.frames * 192 <= w
            &&& w >= 192 && a.frames < 6 ==> w < (a.frames + 1) * 192
            &&& a.state == PetState::Idle && !a.once && a.frame == 0
        }),
{
}

/// A pet that is drawn from a sheet is not missing; one that is missing has no
/// sheet and keeps its animator.
pub proof fn a_pet_is_drawn_or_missing(p: SpriteView, sheet: Seq<char>, w: u32, h: u32)
    ensures
        SpriteView::drawn_from(sheet, (w, h)).sheet == Some(sheet),
        SpriteView::drawn_from(sheet, (w, h)).animator == animator_of_image(w, h),
        !SpriteView::drawn_from(sheet, (w, h)).missing,
        p.without_sheet().sheet is None,
        p.without_sheet().animator == p.animator,
        p.without_sheet().missing,
{
}

/// Once `tried` of the sheets were tried, the last of them is shown if it was
/// decoded; else the next one is tried, if there is one.
pub proof fn the_next_sheet_is_tried(candidates: Seq<Seq<char>>, tried: int, decoded: bool)
    requires
        0 <= tried <= candidates.len(),
    ensures
        decoded && tried > 0 ==> step_after_tries(candidates, tried, decoded)
            == SheetStepView::Show(candidates[tried - 1]),
        !decoded && tried < candidates.len() ==> step_after_tries(candidates, tried, decoded)
            == SheetStepView::Try(candidates[tried]),
        !decoded && tried == candidates.len() ==> step_after_tries(candidates, tried, decoded)
            == SheetStepView::Missing,
{
}

/// The time to do something comes after so many frames of idling without a
/// break: each of them is counted, and whatever else plays starts the count
/// anew. At that time, and at no other, a new time is set and what chance picks
/// is played, once.
pub proof fn idling_is_counted(c: IdleView, a: AnimatorView, fresh: int)
    ensures
        ({
            let due = a.state == PetState::Idle && c.idle_ticks + 1 >= c.next_special;
            let t = c.ticked(a, fresh);
            let p = c.playing(a, fresh);
            &&& due ==> t.idle_ticks == 0 && t.next_special == fresh
            &&& !due ==> t.next_special == c.next_special && p == a
            &&& !due && a.state == PetState::Idle ==> t.idle_ticks == c.idle_ticks + 1
            &&& a.state != PetState::Idle ==> t.idle_ticks == 0
            &&& due && a.rows <= 2 && fresh >= 0 ==> p == a
            &&& due && a.rows > 2 && fresh >= 0 ==> {
                let s = crate::anim::special_picked(a.rows, fresh as nat)->0;
                s != PetState::Idle && p.state == s && p.once && p.frame == 0 && p.rows == a.rows
                    && p.frames == a.frames
            }
        }),
{
    if fresh >= 0 {
        crate::anim::chance_picks_in_turn(a.rows, fresh as nat);
    }
}

/// A pet is in sight where its middle is within the edges of a monitor, the left
/// and the upper one included.
pub proof fn in_sight_means_on_a_monitor(pet: Area, monitors: Seq<Area>)
    ensures
        is_visible(pet, monitors) <==> exists|i: int|
            0 <= i < monitors.len() && {
                let m = #[trigger] monitors[i];
                let (x, y) = (pet.x + pet.w as int / 2, pet.y + pet.h as int / 2);
                m.x <= x && x < m.x + m.w && m.y <= y && y < m.y + m.h
            },
{
    if is_visible(pet, monitors) {
        let i = choose|i: int|
            0 <= i < monitors.len() && (#[trigger] monitors[i]).has(pet.center());
        assert(monitors[i].has(pet.center()));
    }
    if exists|i: int|
        0 <= i < monitors.len() && {
            let m = #[trigger] monitors[i];
            let (x, y) = (pet.x + pet.w as int / 2, pet.y + pet.h as int / 2);
            m.x <= x && x < m.x + m.w && m.y <= y && y < m.y + m.h
        } {
        let i = choose|i: int|
            0 <= i < monitors.len() && {
                let m = #[trigger] monitors[i];
                let (x, y) = (pet.x + pet.w as int / 2, pet.y + pet.h as int / 2);
                m.x <= x && x < m.x + m.w && m.y <= y && y < m.y + m.h
            };
        assert(monitors[i].has(pet.center()));
    }
}

/// A pet is brought back to the primary monitor, or to the first where there is
/// no primary one. It stands 80 pixels from its right edge and 120 from its lower
/// edge, or at its left or upper edge where there is no room for that.
pub proof fn a_pet_is_brought_to_the_corner(pet: Area, monitors: Seq<Area>, primary: Option<Area>)
    ensures
        primary is Some ==> home_monitor(monitors, primary) == primary,
        primary is None && monitors.len() > 0 ==> home_monitor(monitors, primary) == Some(
            monitors[0],
        ),
        primary is None && monitors.len() == 0 ==> home_monitor(monitors, primary) is None,
        home_monitor(monitors, primary) matches Some(m) ==> {
            let (x, y) = home_position(pet, m);
            &&& m.w >= pet.w + 80 ==> x + pet.w + 80 == m.x + m.w
            &&& m.w < pet.w + 80 ==> x == m.x
            &&& m.h >= pet.h + 120 ==> y + pet.h + 120 == m.y + m.h
            &&& m.h < pet.h + 120 ==> y == m.y
        },
{
}

} // verus!
