//! The phrases as the user works on them.

use petphrase::import::read_import;
use petphrase::session::{Confirmed, Edited, ItemRef, Prompt, Session};
use petphrase::storage::{
    Group, Phrase, PhraseData, Settings, MAX_GROUPS, MAX_PHRASES_PER_GROUP, MAX_TEXT_CHARS,
};

fn group(id: &str, texts: &[&str]) -> Group {
    Group {
        id: id.to_string(),
        name: id.to_uppercase(),
        icon: None,
        phrases: texts
            .iter()
            .map(|t| Phrase::new(format!("p-{}", t), t.to_string()))
            .collect(),
    }
}

fn session() -> Session {
    let data = PhraseData {
        groups: vec![group("a", &["a0", "a1", "a2"]), group("b", &["b0"]), group("c", &[])],
    };
    let settings = Settings { last_group: Some("a".to_string()), ..Settings::default() };
    let mut s = Session::new(data, settings);
    for (gi, g) in s.data.groups.iter().enumerate() {
        for (pi, p) in g.phrases.iter().enumerate() {
            s.items.push(ItemRef { text: p.text.clone(), group_idx: gi, phrase_idx: pi });
        }
    }
    s
}

fn texts(s: &Session, gi: usize) -> Vec<&str> {
    s.data.groups[gi].phrases.iter().map(|p| p.text.as_str()).collect()
}

fn names(s: &Session) -> Vec<&str> {
    s.data.groups.iter().map(|g| g.name.as_str()).collect()
}

fn id(s: &str) -> String {
    s.to_string()
}

#[test]
fn the_group_shown_last_is_shown_again() {
    let start = |last: Option<&str>| {
        let data = PhraseData { groups: vec![group("a", &[]), group("b", &[]), group("b", &[])] };
        let settings = Settings { last_group: last.map(id), ..Settings::default() };
        Session::new(data, settings).active_group
    };
    assert_eq!(start(None), 0);
    assert_eq!(start(Some("a")), 0);
    assert_eq!(start(Some("b")), 1, "the first of that id");
    assert_eq!(start(Some("gone")), 0);
    let mut s = session();
    s.set_active_group(2);
    let again = Session::new(s.data.clone(), s.settings.clone());
    assert_eq!(again.active_group, 2);
}

#[test]
fn showing_a_group() {
    let mut s = session();
    s.set_active_group(1);
    assert_eq!((s.active_group, s.settings.last_group.as_deref()), (1, Some("b")));
    s.set_active_group(usize::MAX);
    assert_eq!((s.active_group, s.settings.last_group.as_deref()), (2, Some("c")));
    assert!(s.select_group(0));
    assert_eq!((s.active_group, s.settings.last_group.as_deref()), (0, Some("a")));
    assert!(!s.select_group(3));
    assert!(!s.select_group(-1));
    assert_eq!(s.active_group, 0);
    s.data.groups.clear();
    s.set_active_group(5);
    assert_eq!((s.active_group, s.settings.last_group), (0, None));
}

#[test]
fn deleting_and_bringing_back() {
    let mut s = session();
    let before = s.data.clone();
    assert!(s.item_delete_requested(1));
    assert_eq!(texts(&s, 0), vec!["a0", "a2"]);
    assert!(s.undo_delete());
    assert_eq!(s.data, before);
    assert!(!s.undo_delete(), "once only");
    s.phrase_delete(2);
    assert_eq!(texts(&s, 0), vec!["a0", "a1"]);
    assert!(s.undo_delete());
    assert_eq!(s.data, before);
}

#[test]
fn only_the_last_deletion_comes_back() {
    let mut s = session();
    s.phrase_delete(0);
    s.phrase_delete(0);
    assert!(s.undo_delete());
    assert_eq!(texts(&s, 0), vec!["a1", "a2"]);
    s.phrase_delete(0);
    s.clear_undo();
    assert!(!s.undo_delete());
    assert_eq!(texts(&s, 0), vec!["a2"]);
}

#[test]
fn deleting_what_is_not_there() {
    let mut s = session();
    let before = s.data.clone();
    assert!(!s.item_delete_requested(-1));
    assert!(!s.item_delete_requested(4));
    s.phrase_delete(3);
    s.phrase_delete(-1);
    s.items[0].phrase_idx = 9;
    assert!(s.item_delete_requested(0), "it was shown");
    s.items[0].group_idx = 9;
    assert!(s.item_delete_requested(0));
    assert_eq!(s.data, before);
    assert_eq!(s.last_deleted, None);
}

#[test]
fn bringing_back_to_where_things_have_changed() {
    let mut s = session();
    s.active_group = 1;
    s.phrase_delete(0);
    s.data.groups.truncate(1);
    assert!(s.undo_delete());
    assert_eq!(texts(&s, 0), vec!["b0", "a0", "a1", "a2"]);
    let mut s = session();
    s.phrase_delete(2);
    s.data.groups[0].phrases.clear();
    assert!(s.undo_delete());
    assert_eq!(texts(&s, 0), vec!["a2"]);
    let mut s = session();
    s.phrase_delete(2);
    s.data.groups.clear();
    assert!(!s.undo_delete());
    assert_eq!(s.last_deleted, None);
}

#[test]
fn editing_in_the_panel() {
    let mut s = session();
    assert_eq!(s.item_edit_requested(3), Some(id("b0")));
    assert_eq!(s.pending_edit, Some((1, Some(0))));
    assert_eq!(s.editor_saved("  new\u{3000}", id("unused")), Edited::Done);
    assert_eq!(texts(&s, 1), vec!["new"]);
    assert_eq!(s.data.groups[1].phrases[0].id, "p-b0");
    assert_eq!(s.pending_edit, None);
    assert_eq!(s.editor_saved("again", id("unused")), Edited::Unchanged);
    assert_eq!(s.item_edit_requested(9), None);
    assert_eq!(s.item_edit_requested(-1), None);
}

#[test]
fn adding_in_the_panel() {
    let mut s = session();
    assert!(s.item_add_requested(3));
    assert_eq!(s.pending_edit, Some((1, None)));
    assert_eq!(s.editor_saved("x", id("n1")), Edited::Done);
    assert_eq!(s.data.groups[1].phrases[1], Phrase::new(id("n1"), id("x")));
    s.active_group = 2;
    assert!(s.item_add_requested(-1));
    assert_eq!(s.pending_edit, Some((2, None)));
    assert!(s.item_add_requested(99));
    assert_eq!(s.pending_edit, Some((2, None)));
    s.active_group = 7;
    assert!(s.item_add_requested(-1));
    assert_eq!(s.pending_edit, Some((2, None)));
    s.pending_edit = None;
    s.data.groups.clear();
    assert!(!s.item_add_requested(0));
    assert_eq!(s.pending_edit, None);
}

#[test]
fn the_editor_refuses() {
    let mut s = session();
    let before = s.data.clone();
    s.pending_edit = Some((0, None));
    assert_eq!(s.editor_saved(" \n", id("i")), Edited::Unchanged);
    assert!(s.pending_edit.is_some(), "it stays open");
    assert_eq!(
        s.editor_saved(&"字".repeat(MAX_TEXT_CHARS + 1), id("i")),
        Edited::Refused(id("⚠ 内容过长(上限 10000 字),未保存"))
    );
    assert!(s.pending_edit.is_some());
    s.pending_edit = Some((8, None));
    assert_eq!(s.editor_saved("x", id("i")), Edited::Unchanged);
    assert_eq!(s.pending_edit, None);
    s.pending_edit = Some((0, Some(8)));
    assert_eq!(s.editor_saved("x", id("i")), Edited::Done);
    assert_eq!(s.data, before);
    s.pending_edit = Some((0, None));
    assert_eq!(s.editor_saved(&"字".repeat(MAX_TEXT_CHARS), id("i")), Edited::Done);
}

#[test]
fn full_groups_take_no_more() {
    let mut s = session();
    while s.data.groups[0].phrases.len() < MAX_PHRASES_PER_GROUP {
        s.data.groups[0].phrases.push(Phrase::new(id("i"), id("t")));
    }
    s.pending_edit = Some((0, None));
    let full = Edited::Refused(id("⚠ 该分组短语已达上限"));
    assert_eq!(s.editor_saved("x", id("i")), full);
    assert_eq!(s.pending_edit, None);
    assert_eq!(s.phrase_add("x", id("i")), full);
    assert_eq!(s.data.groups[0].phrases.len(), MAX_PHRASES_PER_GROUP);
    assert_eq!(s.phrase_edited(0, "still"), Edited::Done);
}

#[test]
fn adding_in_the_settings() {
    let mut s = session();
    s.active_group = 2;
    assert_eq!(s.phrase_add(" 好 ", id("n")), Edited::Done);
    assert_eq!(s.data.groups[2].phrases, vec![Phrase::new(id("n"), id("好"))]);
    assert_eq!(s.phrase_add("  ", id("n")), Edited::Unchanged);
    assert_eq!(
        s.phrase_add(&"x".repeat(MAX_TEXT_CHARS + 1), id("n")),
        Edited::Refused(id("⚠ 内容过长(上限 10000 字),未添加"))
    );
    s.active_group = 9;
    let before = s.data.clone();
    assert_eq!(s.phrase_add("x", id("n")), Edited::Done);
    assert_eq!(s.data, before);
}

#[test]
fn editing_in_the_settings() {
    let mut s = session();
    assert_eq!(s.phrase_edited(1, "  neu "), Edited::Done);
    assert_eq!(texts(&s, 0), vec!["a0", "neu", "a2"]);
    assert_eq!(s.phrase_edited(1, " "), Edited::Refused(id("⚠ 内容不能为空,未修改")));
    assert_eq!(
        s.phrase_edited(1, &"x".repeat(MAX_TEXT_CHARS + 1)),
        Edited::Refused(id("⚠ 内容过长(上限 10000 字),未修改"))
    );
    assert_eq!(s.phrase_edited(-1, "x"), Edited::Done);
    assert_eq!(s.phrase_edited(3, "x"), Edited::Done);
    assert_eq!(texts(&s, 0), vec!["a0", "neu", "a2"]);
}

#[test]
fn dragging_groups() {
    let mut s = session();
    assert!(s.group_dropped(0, 2));
    assert_eq!(names(&s), vec!["B", "C", "A"]);
    assert_eq!((s.active_group, s.settings.last_group.as_deref()), (2, Some("a")));
    assert!(s.group_dropped(2, 0));
    assert_eq!(names(&s), vec!["A", "B", "C"]);
    assert!(s.group_dropped(-4, 40));
    assert_eq!(names(&s), vec!["B", "C", "A"]);
    assert!(!s.group_dropped(1, 1));
    assert!(!s.group_dropped(5, 2), "both mean the last");
    s.data.groups.clear();
    assert!(!s.group_dropped(0, 1));
}

#[test]
fn dragging_phrases() {
    let mut s = session();
    assert!(s.phrase_dropped(2, 0));
    assert_eq!(texts(&s, 0), vec!["a2", "a0", "a1"]);
    assert!(s.phrase_dropped(0, 2));
    assert_eq!(texts(&s, 0), vec!["a0", "a1", "a2"]);
    assert!(s.phrase_dropped(-1, i32::MAX));
    assert_eq!(texts(&s, 0), vec!["a1", "a2", "a0"]);
    assert!(!s.phrase_dropped(1, 1));
    s.active_group = 2;
    assert!(!s.phrase_dropped(0, 1), "no phrases");
    s.active_group = 3;
    assert!(!s.phrase_dropped(0, 1), "no group");
}

#[test]
fn adding_groups() {
    let mut s = session();
    assert!(s.group_add(id("n")));
    let g = &s.data.groups[3];
    assert_eq!((g.id.as_str(), g.name.as_str(), g.icon.as_deref()), ("n", "新分组", Some("folder")));
    assert!(g.phrases.is_empty());
    assert_eq!((s.active_group, s.settings.last_group.as_deref()), (3, Some("n")));
    while s.data.groups.len() < MAX_GROUPS {
        assert!(s.group_add(id("m")));
    }
    assert!(!s.group_add(id("too many")));
    assert_eq!(s.data.groups.len(), MAX_GROUPS);
}

#[test]
fn naming_groups() {
    let mut s = session();
    assert!(s.group_renamed(" 客服\n"));
    assert_eq!(names(&s), vec!["客服", "B", "C"]);
    assert!(!s.group_renamed("  "));
    s.active_group = 5;
    assert!(s.group_renamed("x"));
    assert_eq!(names(&s), vec!["客服", "B", "C"]);
}

#[test]
fn choosing_icons() {
    let mut s = session();
    s.group_icon_set(8);
    assert_eq!(s.data.groups[0].icon.as_deref(), Some("fish"));
    s.group_icon_set(-2);
    assert_eq!(s.data.groups[0].icon.as_deref(), Some("star"));
    s.group_icon_set(99);
    assert_eq!(s.data.groups[0].icon.as_deref(), Some("folder"));
    s.active_group = 5;
    s.group_icon_set(1);
    assert_eq!(s.data.groups[1].icon, None);
}

#[test]
fn deleting_a_group_is_confirmed_first() {
    let mut s = session();
    assert_eq!(s.confirm_ok(), Confirmed::Nothing);
    s.active_group = 1;
    assert_eq!(
        s.group_delete(),
        Some(Prompt {
            kind: 0,
            action_label: id("删除"),
            title: id("删除分组"),
            message: id("将删除「B」及其中 1 条常用语,此操作不可撤销。"),
        })
    );
    assert_eq!(names(&s), vec!["A", "B", "C"]);
    assert_eq!(s.confirm_ok(), Confirmed::GroupDeleted);
    assert_eq!(names(&s), vec!["A", "C"]);
    assert_eq!((s.active_group, s.settings.last_group.as_deref()), (0, Some("a")));
    assert_eq!(s.confirm_ok(), Confirmed::Nothing);
    s.active_group = 2;
    assert_eq!(s.group_delete(), None);
}

#[test]
fn importing_is_confirmed_first() {
    let mut s = session();
    s.phrase_delete(0);
    let new = PhraseData { groups: vec![group("n", &["x", "y"])] };
    assert_eq!(
        s.import_requested(new.clone()),
        Prompt {
            kind: 1,
            action_label: id("替换导入"),
            title: id("导入并替换"),
            message: id("将用文件内容(共 1 组 2 条)替换当前全部常用语(3 组 3 条)。\n当前数据会先备份为 phrases.pre-import.json。"),
        }
    );
    let before = s.data.clone();
    assert_eq!(s.confirm_ok(), Confirmed::Import(new.clone()));
    assert_eq!(s.data, before, "not yet");
    assert_eq!(
        s.apply_import(new.clone(), Err(id("磁盘满"))),
        (id("⚠ 导入中止:备份当前数据失败(磁盘满)"), true)
    );
    assert_eq!(s.data, before);
    assert!(s.last_deleted.is_some());
    assert_eq!(
        s.apply_import(new.clone(), Ok(())),
        (id("已导入 ✓(原数据备份在 phrases.pre-import.json)"), false)
    );
    assert_eq!(s.data, new);
    assert_eq!(s.last_deleted, None);
    assert_eq!((s.active_group, s.settings.last_group.as_deref()), (0, Some("n")));
}

#[test]
fn copies_are_counted_at_the_source() {
    let mut s = session();
    assert_eq!(s.copy_target(3), Some((id("b0"), 1, 0)));
    assert_eq!(s.copy_target(4), None);
    assert_eq!(s.copy_target(-1), None);
    s.record_copy(1, 0);
    s.record_copy(1, 0);
    assert_eq!(s.data.groups[1].phrases[0].use_count, 2);
    s.data.groups[1].phrases[0].use_count = u32::MAX;
    s.record_copy(1, 0);
    assert_eq!(s.data.groups[1].phrases[0].use_count, u32::MAX);
    let before = s.data.clone();
    s.record_copy(1, 1);
    s.record_copy(3, 0);
    assert_eq!(s.data, before);
}

#[test]
fn a_restart_shows_the_same_group_after_anything() {
    let mut s = session();
    let shown_again = |s: &Session| {
        Session::new(s.data.clone(), s.settings.clone()).active_group == s.active_group
    };
    s.settings.last_group = None;
    assert!(shown_again(&s), "before any choice");
    assert!(s.group_renamed("x"));
    assert!(shown_again(&s));
    assert!(s.group_dropped(0, 1));
    assert!(shown_again(&s));
    assert!(s.group_add(id("n")));
    assert!(shown_again(&s));
    s.group_delete();
    assert_eq!(s.confirm_ok(), Confirmed::GroupDeleted);
    assert!(shown_again(&s));
    s.apply_import(PhraseData::default(), Ok(()));
    assert!(shown_again(&s));
}

#[test]
fn choosing_theme_and_pet() {
    let mut s = session();
    assert!(!s.wants_solid());
    s.theme_toggled(true);
    assert_eq!(s.settings.theme, "solid");
    assert!(s.wants_solid());
    s.theme_toggled(false);
    assert_eq!(s.settings.theme, "acrylic");
    assert_eq!(
        s.pet_selected(id("dog"), false),
        Some(id("⚠ 该宠物雪碧图无法解码(文件损坏?),已保留当前选择"))
    );
    assert_eq!(s.settings.pet_id, "default");
    assert_eq!(s.pet_selected(id("dog"), true), None);
    assert_eq!(s.settings.pet_id, "dog");
}

#[test]
fn ids_are_needed_only_for_what_is_added() {
    let mut s = session();
    assert!(s.needs_id_to_add(" x "));
    assert!(!s.needs_id_to_add(" "));
    assert!(!s.needs_id_to_add(&"x".repeat(MAX_TEXT_CHARS + 1)));
    assert!(!s.needs_id_to_save("x"), "the editor is open on nothing");
    s.pending_edit = Some((0, Some(0)));
    assert!(!s.needs_id_to_save("x"), "a phrase is changed");
    s.pending_edit = Some((0, None));
    assert!(s.needs_id_to_save("x"));
    assert!(!s.needs_id_to_save("\n"));
    s.pending_edit = Some((7, None));
    assert!(!s.needs_id_to_save("x"));
    while s.data.groups[0].phrases.len() < MAX_PHRASES_PER_GROUP {
        s.data.groups[0].phrases.push(Phrase::new(id("i"), id("t")));
    }
    s.pending_edit = Some((0, None));
    assert!(!s.needs_id_to_add("x") && !s.needs_id_to_save("x"), "the group is full");
    s.active_group = 9;
    assert!(!s.needs_id_to_add("x"));
    assert!(s.has_room_for_group());
    while s.data.groups.len() < MAX_GROUPS {
        s.data.groups.push(group("g", &[]));
    }
    assert!(!s.has_room_for_group());
}

#[test]
fn choosing_the_other_settings() {
    let mut s = session();
    s.sort_toggled(true);
    assert!(s.settings.sort_by_use);
    s.auto_check_toggled(false);
    assert!(!s.settings.auto_check_update);
    s.dir_picked(id("D:/pets"));
    assert_eq!(s.settings.custom_pet_dir.as_deref(), Some("D:/pets"));
    s.pet_moved(-5, 7);
    assert_eq!(s.settings.pet_pos, Some((-5, 7)));
    assert_eq!(s.settings.last_group.as_deref(), Some("a"));
}

#[test]
fn work_leaves_the_data_clean() {
    let mut s = session();
    assert!(s.group_add(id("u1")));
    assert_eq!(s.phrase_add(" x ", id("u2")), Edited::Done);
    assert!(s.group_dropped(3, 0));
    assert!(s.group_renamed(" n "));
    s.phrase_delete(0);
    assert!(s.undo_delete());
    s.record_copy(0, 0);
    assert_eq!(s.phrase_edited(0, "y "), Edited::Done);
    assert_eq!(read_import(Ok(s.data.clone())), Ok(s.data));
}
