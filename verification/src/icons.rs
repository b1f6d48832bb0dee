//! The icons that a group may have.

use crate::text::same;
use vstd::prelude::*;

verus! {

/// How many icons there are.
pub const ICON_COUNT: usize = 12;

/// The keys of the icons, in the order in which they are drawn.
pub open spec fn icon_keys() -> Seq<Seq<char>> {
    seq![
        "star"@,
        "briefcase"@,
        "headphones"@,
        "code"@,
        "mail"@,
        "message-circle"@,
        "smile"@,
        "heart"@,
        "fish"@,
        "map-pin"@,
        "credit-card"@,
        "folder"@,
    ]
}

/// The number of the icon with that key; that of the last one, a folder, for
/// no key or one that is not known.
pub open spec fn icon_number(icon: Option<Seq<char>>) -> int {
    if icon is Some && icon_keys().contains(icon->0) {
        icon_keys().index_of_first(icon->0)->0
    } else {
        11
    }
}

/// The number of the icon that a choice of `i` stands for.
pub open spec fn icon_chosen(i: int) -> int {
    if i < 0 {
        0
    } else if i > 11 {
        11
    } else {
        i
    }
}

/// The key of an icon by its number.
fn key_of(i: usize) -> (r: &'static str)
    requires
        i < ICON_COUNT,
    ensures
        r@ == icon_keys()[i as int],
{
    if i == 0 {
        "star"
    } else if i == 1 {
        "briefcase"
    } else if i == 2 {
        "headphones"
    } else if i == 3 {
        "code"
    } else if i == 4 {
        "mail"
    } else if i == 5 {
        "message-circle"
    } else if i == 6 {
        "smile"
    } else if i == 7 {
        "heart"
    } else if i == 8 {
        "fish"
    } else if i == 9 {
        "map-pin"
    } else if i == 10 {
        "credit-card"
    } else {
        "folder"
    }
}

/// The key of the icon that a choice of `i` stands for.
pub fn icon_key(i: i32) -> (r: String)
    ensures
        r@ == icon_keys()[icon_chosen(i as int)],
{
    let n: usize = if i < 0 {
        0
    } else if i > 11 {
        11
    } else {
        i as usize
    };
    key_of(n).to_owned()
}

/// The number of the icon with that key; that of the last one, a folder, for
/// no key or one that is not known.
pub fn icon_idx(icon: &Option<String>) -> (r: i32)
    ensures
        r == icon_number(crate::storage::text_view(*icon)),
        0 <= r < ICON_COUNT,
{
    match icon {
        Some(key) => {
            let ghost keys = icon_keys();
            for i in 0..ICON_COUNT
                invariant
                    keys == icon_keys(),
                    crate::storage::text_view(*icon) == Some(key@),
                    forall|k: int| 0 <= k < i ==> #[trigger] keys[k] != key@,
            {
                if same(key_of(i), key.as_str()) {
                    proof {
                        assert(keys[i as int] == key@);
                        keys.index_of_first_ensures(key@);
                    }
                    return i as i32;
                }
            }
            assert(!keys.contains(key@));
            11
        },
        None => 11,
    }
}

proof fn lemma_key_lengths()
    ensures
        icon_keys()[0].len() == 4 && icon_keys()[0][0] == 's',
        icon_keys()[1].len() == 9,
        icon_keys()[2].len() == 10,
        icon_keys()[3].len() == 4 && icon_keys()[3][0] == 'c',
        icon_keys()[4].len() == 4 && icon_keys()[4][0] == 'm',
        icon_keys()[5].len() == 14,
        icon_keys()[6].len() == 5 && icon_keys()[6][0] == 's',
        icon_keys()[7].len() == 5 && icon_keys()[7][0] == 'h',
        icon_keys()[8].len() == 4 && icon_keys()[8][0] == 'f',
        icon_keys()[9].len() == 7,
        icon_keys()[10].len() == 11,
        icon_keys()[11].len() == 6,
{
    reveal_strlit("star");
    reveal_strlit("briefcase");
    reveal_strlit("headphones");
    reveal_strlit("code");
    reveal_strlit("mail");
    reveal_strlit("message-circle");
    reveal_strlit("smile");
    reveal_strlit("heart");
    reveal_strlit("fish");
    reveal_strlit("map-pin");
    reveal_strlit("credit-card");
    reveal_strlit("folder");
}

/// The icon that was chosen is the icon that is shown.
pub proof fn chosen_icon_is_shown(i: int)
    ensures
        icon_number(Some(icon_keys()[icon_chosen(i)])) == icon_chosen(i),
{
    let n = icon_chosen(i);
    let keys = icon_keys();
    lemma_key_lengths();
    assert(keys.contains(keys[n]));
    keys.index_of_first_ensures(keys[n]);
    let m = keys.index_of_first(keys[n])->0;
    assert(keys[m] == keys[n]);
}

/// There are twelve icons, no two of one key.
pub proof fn icons_have_keys_of_their_own(i: int, j: int)
    requires
        0 <= i < 12,
        0 <= j < 12,
        icon_keys()[i] == icon_keys()[j],
    ensures
        icon_keys().len() == 12,
        i == j,
{
    lemma_key_lengths();
}

/// A group is shown with the icon whose key it has, and with the last one if it
/// has no key or one that is not known.
pub proof fn the_icon_of_the_key_is_shown(key: Seq<char>, i: int)
    requires
        0 <= i < 12,
    ensures
        icon_number(Some(icon_keys()[i])) == i,
        (forall|k: int| 0 <= k < 12 ==> #[trigger] icon_keys()[k] != key) ==> icon_number(Some(key))
            == 11,
        icon_number(None) == 11,
{
    chosen_icon_is_shown(i);
}

/// A choice of an icon that there is stands for it, and any other for the nearest.
pub proof fn a_choice_stands_for_the_nearest(i: int)
    ensures
        0 <= i < 12 ==> icon_chosen(i) == i,
        i < 0 ==> icon_chosen(i) == 0,
        i > 11 ==> icon_chosen(i) == 11,
{
}

} // verus!
