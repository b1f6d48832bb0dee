//! What the windows show and do.

use petphrase::icons::{icon_idx, icon_key};
use petphrase::notices::{
    autostart_toggled, copy_feedback, copy_step, export_notice, import_failed, report_persist,
    CopyFeedback, CopyStep, PersistReport,
};
use petphrase::page::{is_search, settings_page, shows_grid, tabs};
use petphrase::panel::{
    tray_chosen, Panel, PetClick, TrayCommand, TrayEntry, POLL_MS, SAVE_POSITION_MS,
};
use petphrase::pet::PetInfo;
use petphrase::session::{Session, UNDO_MS};
use petphrase::storage::{Group, Phrase, PhraseData, Settings};
use petphrase::update::{UpdateNotice, Updates, CHECK_AGAIN_MS, FIRST_CHECK_MS};

fn group(id: &str, icon: Option<&str>, texts: &[&str]) -> Group {
    Group {
        id: id.to_string(),
        name: id.to_uppercase(),
        icon: icon.map(|i| i.to_string()),
        phrases: texts
            .iter()
            .map(|t| Phrase::new(format!("p-{}", t), t.to_string()))
            .collect(),
    }
}

#[test]
fn icons_by_key_and_number() {
    let keys = [
        "star", "briefcase", "headphones", "code", "mail", "message-circle", "smile", "heart",
        "fish", "map-pin", "credit-card", "folder",
    ];
    for (i, k) in keys.iter().enumerate() {
        assert_eq!(icon_key(i as i32), *k);
        assert_eq!(icon_idx(&Some(k.to_string())), i as i32);
    }
    assert_eq!(icon_idx(&None), 11);
    assert_eq!(icon_idx(&Some("Star".to_string())), 11);
    assert_eq!(icon_key(-5), "star");
    assert_eq!(icon_key(12), "folder");
    assert_eq!(icon_key(i32::MAX), "folder");
}

#[test]
fn one_tab_for_each_group() {
    let data = PhraseData {
        groups: vec![group("a", Some("heart"), &[]), group("b", None, &["x"])],
    };
    let t = tabs(&data, 1);
    assert_eq!(t.len(), 2);
    assert_eq!((t[0].id.as_str(), t[0].name.as_str(), t[0].icon_idx, t[0].active), ("a", "A", 7, false));
    assert_eq!((t[1].id.as_str(), t[1].name.as_str(), t[1].icon_idx, t[1].active), ("b", "B", 11, true));
    assert_eq!(tabs(&data, 7).iter().filter(|t| t.active).count(), 0);
}

#[test]
fn the_grid_is_for_more_than_four_groups() {
    let mut data = PhraseData { groups: Vec::new() };
    for i in 0..4 {
        data.groups.push(group(&format!("{}", i), None, &[]));
        assert!(!shows_grid(&data));
    }
    data.groups.push(group("4", None, &[]));
    assert!(shows_grid(&data));
}

#[test]
fn blank_queries_search_nothing() {
    assert!(!is_search(""));
    assert!(!is_search(" \u{3000}\n"));
    assert!(is_search(" 好 "));
}

#[test]
fn the_settings_list_everything() {
    let data = PhraseData {
        groups: vec![group("a", Some("code"), &["one\ntwo", "three"]), group("b", None, &[])],
    };
    let settings = Settings {
        pet_id: "cat".to_string(),
        custom_pet_dir: Some("D:\\pets".to_string()),
        ..Settings::default()
    };
    let mut s = Session::new(data, settings);
    let pets = vec![
        PetInfo {
            id: "cat".to_string(),
            name: "Cat".to_string(),
            spritesheet: "cat.png".to_string(),
            error: None,
        },
        PetInfo {
            id: "dog".to_string(),
            name: "Dog".to_string(),
            spritesheet: "dog.png".to_string(),
            error: Some("no sheet".to_string()),
        },
    ];
    let page = settings_page(&mut s, &pets);
    let rows: Vec<_> = page
        .groups
        .iter()
        .map(|g| (g.name.as_str(), g.icon_idx, g.count, g.selected))
        .collect();
    assert_eq!(rows, vec![("A", 3, 2, true), ("B", 11, 0, false)]);
    assert_eq!((page.group_name.as_str(), page.group_icon_idx), ("A", 3));
    let phrases: Vec<_> = page
        .phrases
        .iter()
        .map(|p| (p.text.as_str(), p.display.as_str()))
        .collect();
    assert_eq!(phrases, vec![("one\ntwo", "one two"), ("three", "three")]);
    let cards: Vec<_> = page
        .pets
        .iter()
        .map(|p| (p.name.as_str(), p.err.as_str(), p.selected))
        .collect();
    assert_eq!(cards, vec![("Cat", "", true), ("Dog", "no sheet", false)]);
    assert_eq!(page.custom_dir, "D:\\pets");
    assert!(!page.saves_settings);
    assert!(page.has_group);
}

#[test]
fn the_settings_settle_on_a_group() {
    let mut s = Session::new(
        PhraseData { groups: vec![group("a", None, &["x"]), group("b", None, &[])] },
        Settings::default(),
    );
    s.active_group = 9;
    let page = settings_page(&mut s, &Vec::new());
    assert_eq!((s.active_group, s.settings.last_group.as_deref()), (1, Some("b")));
    assert!(page.saves_settings);
    assert_eq!(page.group_name, "B");
    assert!(!settings_page(&mut s, &Vec::new()).saves_settings, "once only");
    assert!(page.groups.iter().all(|g| !g.selected));
}

#[test]
fn the_settings_without_groups() {
    let mut s = Session::new(PhraseData { groups: Vec::new() }, Settings::default());
    s.settings.last_group = Some("gone".to_string());
    assert!(!settings_page(&mut s, &Vec::new()).saves_settings);
    assert_eq!(s.settings.last_group.as_deref(), Some("gone"), "nothing else is shown");
    s.active_group = 3;
    let page = settings_page(&mut s, &Vec::new());
    assert_eq!((s.active_group, s.settings.last_group.as_deref()), (0, None));
    assert!(page.saves_settings);
    assert_eq!((page.group_name.as_str(), page.group_icon_idx), ("", 11));
    assert!(page.phrases.is_empty());
    assert!(!page.has_group);
    assert_eq!(page.custom_dir, "");
}

#[test]
fn failures_to_save_are_told_twice() {
    let told = "⚠ 常用语保存失败:磁盘满".to_string();
    assert_eq!(
        report_persist(Err("磁盘满".to_string()), "常用语", "已导出 ✓"),
        PersistReport { save_error: told.clone(), data_msg: Some((told, true)) }
    );
}

#[test]
fn success_takes_back_only_failures_to_save() {
    assert_eq!(
        report_persist(Ok(()), "设置", "⚠ 常用语保存失败:磁盘满"),
        PersistReport { save_error: String::new(), data_msg: Some((String::new(), false)) }
    );
    assert_eq!(
        report_persist(Ok(()), "设置", "已导出 ✓"),
        PersistReport { save_error: String::new(), data_msg: None }
    );
}

#[test]
fn notices_of_exports_and_imports() {
    assert_eq!(export_notice(Ok(())), ("已导出 ✓".to_string(), false));
    assert_eq!(export_notice(Err("拒绝访问".to_string())), ("⚠ 导出失败:拒绝访问".to_string(), true));
    assert_eq!(import_failed("文件过大"), "⚠ 导入失败:文件过大");
}

#[test]
fn the_autostart_switch_goes_back() {
    assert_eq!(autostart_toggled(true, Ok(())), (true, None));
    assert_eq!(autostart_toggled(false, Ok(())), (false, None));
    assert_eq!(
        autostart_toggled(true, Err("denied".to_string())),
        (false, Some("⚠ 开机自启设置失败:denied".to_string()))
    );
    assert_eq!(
        autostart_toggled(false, Err("denied".to_string())).0,
        true
    );
}

#[test]
fn two_attempts_to_copy() {
    assert_eq!(copy_step(true, true), CopyStep::Copied);
    assert_eq!(copy_step(true, false), CopyStep::Retry);
    assert_eq!(copy_step(false, true), CopyStep::Copied);
    assert_eq!(copy_step(false, false), CopyStep::Failed);
}

#[test]
fn answers_to_a_copy() {
    assert_eq!(copy_feedback(true, true), CopyFeedback::ClearMark { after_ms: 800 });
    assert_eq!(copy_feedback(true, false), CopyFeedback::Hide { after_ms: 200 });
    let told = CopyFeedback::Tell("⚠ 复制失败,请重试(剪贴板被其它程序占用)".to_string());
    assert_eq!(copy_feedback(false, true), told);
    assert_eq!(copy_feedback(false, false), told);
}

fn shown(pinned: bool) -> Panel {
    let mut p = Panel::new();
    p.opening();
    p.opened();
    p.pinned = pinned;
    p.menu_open = true;
    p.editor_open = true;
    p.grid_open = true;
    p
}

fn editing() -> Session {
    let mut s = Session::new(PhraseData::default(), Settings::default());
    s.pending_edit = Some((0, Some(1)));
    s
}

#[test]
fn hiding_the_panel_forgets_the_editor() {
    let (mut p, mut s) = (shown(true), editing());
    p.hide_panel(&mut s);
    assert_eq!(p, Panel::new());
    assert_eq!(s.pending_edit, None);
}

#[test]
fn a_pinned_panel_makes_way_and_returns() {
    let mut p = shown(true);
    assert!(p.open_settings());
    assert!(!p.visible && p.pinned && !p.menu_open && !p.editor_open && p.grid_open);
    assert!(p.settings_closed());
    assert!(!p.settings_closed(), "once only");
}

#[test]
fn other_panels_do_not_return() {
    let mut p = shown(false);
    assert!(!p.open_settings());
    assert!(p.visible && !p.settings_closed());
    let mut q = Panel::new();
    q.pinned = true;
    assert!(!q.open_settings() && !q.settings_closed());
}

#[test]
fn a_panel_unpinned_meanwhile_stays_away() {
    let mut p = shown(true);
    p.open_settings();
    p.pinned = false;
    assert!(!p.settings_closed());
    assert!(!p.resume_after_settings);
}

#[test]
fn the_gear_hides_what_is_not_pinned() {
    let (mut p, mut s) = (shown(false), editing());
    p.gear_clicked(&mut s);
    assert_eq!(p, Panel::new());
    assert_eq!(s.pending_edit, None);
    let (mut p, mut s) = (shown(true), editing());
    p.gear_clicked(&mut s);
    assert!(p.pinned && !p.visible && p.resume_after_settings);
    assert_eq!(s.pending_edit, Some((0, Some(1))));
}

#[test]
fn losing_a_focus_that_was_had_hides() {
    let (mut p, mut s) = (shown(false), editing());
    assert!(!p.focus_changed(&mut s, false), "not had yet");
    assert!(p.visible);
    assert!(!p.focus_changed(&mut s, true));
    assert!(p.got_focus && s.pending_edit.is_some());
    assert!(p.focus_changed(&mut s, false));
    assert!(!p.visible && s.pending_edit.is_none());
    let (mut p, mut s) = (shown(true), editing());
    p.focus_changed(&mut s, true);
    assert!(!p.focus_changed(&mut s, false));
    assert!(p.visible && s.pending_edit.is_some());
    p.opening();
    assert!(!p.got_focus);
}

#[test]
fn clicks_on_the_pet() {
    assert_eq!(shown(false).pet_clicked(true), PetClick::OpenSettings);
    assert_eq!(shown(false).pet_clicked(false), PetClick::HidePanel);
    assert_eq!(Panel::new().pet_clicked(false), PetClick::ShowPanel);
    assert!(shown(true).follows_pet());
    assert!(!shown(false).follows_pet());
    assert!(!Panel::new().follows_pet());
}

#[test]
fn the_window_is_set_up_once() {
    let mut p = Panel::new();
    assert_eq!(p.native_theme(false, true), Some(false));
    assert_eq!(p.native_theme(true, true), None);
    assert_eq!(Panel::new().native_theme(true, true), Some(true));
    assert_eq!(Panel::new().native_theme(false, false), Some(true));
}

#[test]
fn the_menu_of_the_tray() {
    assert_eq!(tray_chosen(TrayEntry::Toggle, true, false), TrayCommand::HidePet);
    assert_eq!(tray_chosen(TrayEntry::Toggle, false, true), TrayCommand::RecoverPet);
    assert_eq!(tray_chosen(TrayEntry::Settings, true, true), TrayCommand::OpenSettings);
    assert_eq!(tray_chosen(TrayEntry::Update, true, false), TrayCommand::CheckUpdate);
    assert_eq!(tray_chosen(TrayEntry::Update, true, true), TrayCommand::InstallUpdate);
    assert_eq!(tray_chosen(TrayEntry::Quit, false, false), TrayCommand::Quit);
}

fn says(message: &str, is_error: Option<bool>, menu_text: Option<&str>) -> UpdateNotice {
    UpdateNotice {
        message: Some(message.to_string()),
        is_error,
        menu_text: menu_text.map(|m| m.to_string()),
    }
}

fn silent() -> UpdateNotice {
    UpdateNotice { message: None, is_error: None, menu_text: None }
}

#[test]
fn a_search_that_the_user_asked_for() {
    let mut u = Updates::new();
    assert_eq!(u.start_update_check(true), Some(says("正在检查更新…", Some(false), None)));
    assert_eq!(u.start_update_check(true), None, "one at a time");
    assert!(u.start_update_install().is_none());
    assert_eq!(u.check_finished(true, Ok(None)), says("已是最新版本 ✓", Some(false), None));
    assert!(u.start_update_check(true).is_some());
    assert_eq!(
        u.check_finished(true, Err("超时".to_string())),
        says("检查失败:超时", Some(true), None)
    );
    assert!(!u.is_found());
    assert!(u.start_update_install().is_none(), "nothing to install");
}

#[test]
fn a_silent_search() {
    let mut u = Updates::new();
    assert_eq!(u.start_update_check(false), Some(silent()));
    assert_eq!(u.check_finished(false, Err("超时".to_string())), silent());
    assert_eq!(u.start_update_check(false), Some(silent()));
    assert_eq!(u.check_finished(false, Ok(None)), silent());
    assert_eq!(u.start_update_check(false), Some(silent()));
    assert_eq!(
        u.check_finished(false, Ok(Some("1.2.3".to_string()))),
        says("发现新版 v1.2.3", None, Some("升级到 v1.2.3"))
    );
    assert!(u.is_found());
    assert_eq!(u.start_update_check(true), None, "it is found already");
}

#[test]
fn searches_now_and_then_only_if_wanted() {
    let mut u = Updates::new();
    assert_eq!(u.check_due(false), None);
    assert_eq!(u.check_due(true), Some(silent()));
    assert_eq!(u.check_due(true), None, "one at a time");
    u.check_finished(false, Ok(Some("1.0.1".to_string())));
    assert_eq!(u.check_due(true), None, "it is found already");
}

#[test]
fn the_times() {
    assert_eq!((FIRST_CHECK_MS, CHECK_AGAIN_MS), (10_000, 86_400_000));
    assert_eq!((POLL_MS, SAVE_POSITION_MS, UNDO_MS), (150, 500, 8_000));
}

#[test]
fn installing_what_was_found() {
    let mut u = Updates::new();
    u.start_update_check(false);
    u.check_finished(false, Ok(Some("2.0.0".to_string())));
    assert_eq!(
        u.start_update_install(),
        Some(("2.0.0".to_string(), says("正在下载 v2.0.0…", Some(false), None)))
    );
    assert_eq!(u.start_update_install(), None, "one at a time");
    assert_eq!(u.download_failed("校验不符"), says("更新失败:校验不符", Some(true), None));
    assert!(u.start_update_install().is_some(), "another try");
    assert_eq!(u.launch_failed("无法启动".to_string()), says("无法启动", Some(true), None));
    assert!(u.start_update_install().is_some());
}
