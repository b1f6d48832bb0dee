//! Keeping files, on a disk in memory.

use petphrase::files::{
    atomic_write, backup_phrases, backup_settings, export_phrases, load_phrases, load_settings,
    load_step, FileOp, FileWrite, LoadStep, Slot, Source, BACKUP_FILE, PHRASES_FILE,
    PRE_IMPORT_FILE, SETTINGS_BACKUP_FILE, SETTINGS_FILE,
};
use petphrase::import::{admit_import, read_import};
use petphrase::storage::{Group, Phrase, PhraseData, Settings, MAX_IMPORT_BYTES};
use serde_json::{Number, Value};
use std::collections::BTreeMap;
use std::path::Path;

type Files = BTreeMap<String, String>;

fn with_extension(path: &str, extension: &str) -> String {
    Path::new(path).with_extension(extension).to_string_lossy().to_string()
}

fn path_of(path: &str, slot: Slot, tmp: &str) -> String {
    match slot {
        Slot::Main => path.to_string(),
        Slot::Old => with_extension(path, "old"),
        Slot::Tmp => with_extension(path, tmp),
    }
}

/// Does one thing to the files; whether it went well.
fn perform(files: &mut Files, path: &str, tmp: &str, text: &str, op: FileOp) -> bool {
    match op {
        FileOp::CreateParent => true,
        FileOp::WriteTmp => {
            files.insert(path_of(path, Slot::Tmp, tmp), text.to_string());
            true
        }
        FileOp::LookForMain => files.contains_key(path),
        FileOp::LookForOld => files.contains_key(&path_of(path, Slot::Old, tmp)),
        FileOp::Remove(slot) => files.remove(&path_of(path, slot, tmp)).is_some(),
        FileOp::Rename(from, to) => match files.remove(&path_of(path, from, tmp)) {
            Some(t) => {
                files.insert(path_of(path, to, tmp), t);
                true
            }
            None => false,
        },
    }
}

/// Goes on with a write to its end; what `fails` names does not go well.
fn finish(
    write: &mut FileWrite,
    files: &mut Files,
    path: &str,
    tmp: &str,
    text: &str,
    fails: &[FileOp],
) -> bool {
    while let Some(op) = write.op() {
        let ok = !fails.contains(&op) && perform(files, path, tmp, text, op);
        write.report(ok);
    }
    write.is_written()
}

fn write(files: &mut Files, path: &str, text: &str) -> bool {
    finish(&mut atomic_write(true), files, path, "tmp", text, &[])
}

fn phrase_value(p: &Phrase) -> Value {
    let mut m = serde_json::Map::new();
    m.insert("id".to_string(), Value::String(p.id.clone()));
    m.insert("text".to_string(), Value::String(p.text.clone()));
    m.insert("use_count".to_string(), Value::Number(Number::from(p.use_count)));
    Value::Object(m)
}

fn group_value(g: &Group) -> Value {
    let mut m = serde_json::Map::new();
    m.insert("id".to_string(), Value::String(g.id.clone()));
    m.insert("name".to_string(), Value::String(g.name.clone()));
    let icon = match &g.icon {
        Some(i) => Value::String(i.clone()),
        None => Value::Null,
    };
    m.insert("icon".to_string(), icon);
    m.insert("phrases".to_string(), Value::Array(g.phrases.iter().map(phrase_value).collect()));
    Value::Object(m)
}

fn to_text(data: &PhraseData) -> String {
    let mut m = serde_json::Map::new();
    m.insert("groups".to_string(), Value::Array(data.groups.iter().map(group_value).collect()));
    serde_json::to_string_pretty(&Value::Object(m)).unwrap()
}

fn text_at(v: &Value, key: &str) -> Option<String> {
    v.get(key)?.as_str().map(|s| s.to_string())
}

fn phrase_of(v: &Value) -> Option<Phrase> {
    let use_count = match v.get("use_count") {
        None => 0,
        Some(n) => n.as_u64()? as u32,
    };
    Some(Phrase { id: text_at(v, "id")?, text: text_at(v, "text")?, use_count })
}

fn group_of(v: &Value) -> Option<Group> {
    let phrases = match v.get("phrases") {
        None => Vec::new(),
        Some(list) => list.as_array()?.iter().map(phrase_of).collect::<Option<Vec<Phrase>>>()?,
    };
    Some(Group { id: text_at(v, "id")?, name: text_at(v, "name")?, icon: text_at(v, "icon"), phrases })
}

fn from_text(text: &str) -> Result<PhraseData, String> {
    let v: Value = serde_json::from_str(text).map_err(|e| e.to_string())?;
    let groups = v
        .get("groups")
        .and_then(|g| g.as_array())
        .ok_or("missing field `groups`".to_string())?;
    let groups = groups.iter().map(group_of).collect::<Option<Vec<Group>>>();
    Ok(PhraseData { groups: groups.ok_or("invalid group".to_string())? })
}

/// The settings as they are kept, with the two sizes.
#[derive(Debug, PartialEq)]
struct Kept {
    settings: Settings,
    pet_scale: f64,
    panel_h: f64,
}

fn kept_defaults() -> Kept {
    Kept { settings: Settings::default(), pet_scale: 1.0, panel_h: 400.0 }
}

fn kept_to_text(k: &Kept) -> String {
    let mut m = serde_json::Map::new();
    m.insert("pet_id".to_string(), Value::String(k.settings.pet_id.clone()));
    m.insert("theme".to_string(), Value::String(k.settings.theme.clone()));
    if let Some((x, y)) = k.settings.pet_pos {
        let pos = vec![Value::Number(Number::from(x)), Value::Number(Number::from(y))];
        m.insert("pet_pos".to_string(), Value::Array(pos));
    }
    m.insert("pet_scale".to_string(), Value::Number(Number::from_f64(k.pet_scale).unwrap()));
    m.insert("panel_h".to_string(), Value::Number(Number::from_f64(k.panel_h).unwrap()));
    serde_json::to_string_pretty(&Value::Object(m)).unwrap()
}

fn kept_of_text(text: &str) -> Option<Kept> {
    let v: Value = serde_json::from_str(text).ok()?;
    let mut k = kept_defaults();
    k.settings.pet_id = text_at(&v, "pet_id")?;
    k.settings.theme = text_at(&v, "theme")?;
    k.settings.pet_pos = v
        .get("pet_pos")
        .and_then(|p| Some((p.get(0)?.as_i64()? as i32, p.get(1)?.as_i64()? as i32)));
    k.pet_scale = v.get("pet_scale")?.as_f64()?;
    k.panel_h = v.get("panel_h")?.as_f64()?;
    Some(k)
}

fn source_path(source: Source, main: &str, backup: &str) -> String {
    match source {
        Source::Main => main.to_string(),
        Source::MainOld => with_extension(main, "old"),
        Source::Backup => backup.to_string(),
        Source::BackupOld => with_extension(backup, "old"),
    }
}

fn read_phrases(files: &Files, path: &str) -> Option<PhraseData> {
    from_text(files.get(path)?).ok()
}

fn save_phrases(files: &mut Files, data: &PhraseData) -> bool {
    write(files, PHRASES_FILE, &to_text(data))
}

fn load(files: &mut Files) -> PhraseData {
    let mut source = Source::Main;
    loop {
        let found = read_phrases(files, &source_path(source, PHRASES_FILE, BACKUP_FILE));
        match load_phrases(source, found) {
            LoadStep::Read(next) => source = next,
            LoadStep::Found { value, rewrite_main } => {
                if rewrite_main {
                    save_phrases(files, &value);
                }
                return value;
            }
            LoadStep::Missing => unreachable!(),
        }
    }
}

fn save_kept(files: &mut Files, k: &Kept) -> bool {
    write(files, SETTINGS_FILE, &kept_to_text(k))
}

fn load_kept(files: &mut Files) -> Kept {
    let mut source = Source::Main;
    loop {
        let path = source_path(source, SETTINGS_FILE, SETTINGS_BACKUP_FILE);
        let found = files.get(&path).and_then(|t| kept_of_text(t));
        match load_settings(source, found, kept_defaults()) {
            LoadStep::Read(next) => source = next,
            LoadStep::Found { value, rewrite_main } => {
                if rewrite_main {
                    save_kept(files, &value);
                }
                return value;
            }
            LoadStep::Missing => unreachable!(),
        }
    }
}

fn back_up(files: &mut Files) {
    let text = files.get(PHRASES_FILE).cloned();
    let parsed = text.as_ref().and_then(|t| from_text(t).ok());
    if let Some(t) = backup_phrases(text, &parsed) {
        write(files, BACKUP_FILE, &t);
    }
    let text = files.get(SETTINGS_FILE).cloned();
    let parsed = text.as_ref().and_then(|t| kept_of_text(t));
    if let Some(t) = backup_settings(text, &parsed) {
        write(files, SETTINGS_BACKUP_FILE, &t);
    }
}

fn import(files: &Files, path: &str) -> Result<PhraseData, String> {
    let text = files.get(path).ok_or("not found".to_string())?;
    admit_import(text.len() as u64)?;
    read_import(from_text(text))
}

fn export(files: &mut Files, data: &PhraseData, path: &str) -> bool {
    let text = to_text(data);
    finish(&mut export_phrases(), files, path, "petphrase-export-tmp", &text, &[])
}

#[test]
fn save_then_load_roundtrip() {
    let mut files = Files::new();
    let mut data = PhraseData::default();
    data.groups[0].phrases.push(Phrase::new("x".into(), "测试".into()));
    assert!(save_phrases(&mut files, &data));
    assert_eq!(load(&mut files), data);
}

#[test]
fn load_missing_returns_default_with_sample_group() {
    let mut files = Files::new();
    let data = load(&mut files);
    assert_eq!(data.groups.len(), 1);
    assert_eq!(data.groups[0].name, "常用");
    assert!(!data.groups[0].phrases.is_empty());
    assert!(files.is_empty(), "nothing is written");
}

#[test]
fn corrupt_json_recovers_from_backup_and_rewrites_main() {
    let mut files = Files::new();
    let data = PhraseData::default();
    assert!(save_phrases(&mut files, &data));
    back_up(&mut files);
    files.insert("phrases.json".to_string(), "{broken!!".to_string());
    assert_eq!(load(&mut files), data);
    let repaired = files.get("phrases.json").unwrap();
    assert!(from_text(repaired).is_ok());
}

#[test]
fn atomic_write_leaves_no_tmp_or_old() {
    let mut files = Files::new();
    let target = "phrases.json";
    assert!(write(&mut files, target, "{}"));
    assert!(write(&mut files, target, "{\"groups\":[]}"));
    assert!(!files.contains_key(&with_extension(target, "tmp")));
    assert!(!files.contains_key(&with_extension(target, "old")));
    assert_eq!(files.get(target).unwrap(), "{\"groups\":[]}");
    assert_eq!(files.len(), 1);
}

#[test]
fn load_falls_back_to_old_when_main_corrupt() {
    let mut files = Files::new();
    let data = PhraseData::default();
    files.insert("phrases.old".to_string(), to_text(&data));
    files.insert("phrases.json".to_string(), "{broken".to_string());
    assert_eq!(load(&mut files), data);
    assert_eq!(files.get("phrases.json").unwrap(), "{broken", "only a backup is written back");
}

#[test]
fn load_falls_back_to_backup_old_when_backup_swap_interrupted() {
    let mut files = Files::new();
    let data = PhraseData::default();
    files.insert("phrases.backup.old".to_string(), to_text(&data));
    assert_eq!(load(&mut files), data);
    assert!(files.contains_key("phrases.json"));
}

#[test]
fn settings_recover_from_backup_when_main_corrupt() {
    let mut files = Files::new();
    let mut s = kept_defaults();
    s.settings.theme = "solid".into();
    assert!(save_kept(&mut files, &s));
    back_up(&mut files);
    files.insert("settings.json".to_string(), "{broken".to_string());
    assert_eq!(load_kept(&mut files), s);
    assert!(kept_of_text(files.get("settings.json").unwrap()).is_some());
}

#[test]
fn import_sanitizes_dup_ids_empty_names_and_drops_blank_phrases() {
    let mut files = Files::new();
    files.insert(
        "in.json".to_string(),
        r#"{"groups":[
                {"id":"a","name":"  ","phrases":[{"id":"x","text":"one"},{"id":"x","text":"   "}]},
                {"id":"a","name":"B","phrases":[{"id":"","text":"two"}]}
            ]}"#
        .to_string(),
    );
    let data = import(&files, "in.json").unwrap();
    assert_eq!(data.groups[0].name, "未命名");
    assert_eq!(data.groups[0].phrases.len(), 1, "空白短语被丢弃");
    assert_ne!(data.groups[0].id, data.groups[1].id, "重复分组 id 被重建");
    assert!(!data.groups[1].phrases[0].id.is_empty(), "空短语 id 被补齐");
}

#[test]
fn import_rejects_oversized_data() {
    let mut files = Files::new();
    let huge = "x".repeat(10_001);
    files.insert(
        "in.json".to_string(),
        format!(
            r#"{{"groups":[{{"id":"a","name":"A","phrases":[{{"id":"p","text":"{huge}"}}]}}]}}"#
        ),
    );
    let err = import(&files, "in.json").unwrap_err();
    assert!(err.contains("超长"));
    assert_eq!(err, "存在超长短语(10001 字,上限 10000)");
}

#[test]
fn import_rejects_oversized_file_before_reading() {
    let err = admit_import(MAX_IMPORT_BYTES + 1).unwrap_err();
    assert!(err.contains("过大"));
    assert_eq!(err, "文件过大(20MB,上限 20MB)");
    assert_eq!(admit_import(35 * 1024 * 1024).unwrap_err(), "文件过大(35MB,上限 20MB)");
    assert_eq!(
        admit_import(u64::MAX).unwrap_err(),
        format!("文件过大({}MB,上限 20MB)", u64::MAX >> 20)
    );
    assert_eq!(admit_import(MAX_IMPORT_BYTES), Ok(()));
    assert_eq!(admit_import(0), Ok(()));
}

#[test]
fn snapshot_before_import_writes_readable_copy() {
    let mut files = Files::new();
    let data = PhraseData::default();
    assert!(write(&mut files, PRE_IMPORT_FILE, &to_text(&data)));
    let text = files.get("phrases.pre-import.json").unwrap();
    assert_eq!(from_text(text).unwrap(), data);
}

#[test]
fn settings_roundtrip_and_default() {
    let mut files = Files::new();
    let s = load_kept(&mut files);
    assert_eq!(s.settings.pet_id, "default");
    assert_eq!(s.settings.theme, "acrylic");
    assert_eq!(s.pet_scale, 1.0);
    let mut changed = kept_defaults();
    changed.settings.pet_pos = Some((100, 200));
    changed.pet_scale = 0.75;
    assert!(save_kept(&mut files, &changed));
    assert_eq!(load_kept(&mut files), changed);
}

#[test]
fn import_rejects_invalid_json() {
    let mut files = Files::new();
    files.insert("bad.json".to_string(), "not json".to_string());
    let err = import(&files, "bad.json").unwrap_err();
    assert!(err.starts_with("文件格式不正确: "));
    assert!(err.len() > "文件格式不正确: ".len());
}

#[test]
fn export_then_import_roundtrip() {
    let mut files = Files::new();
    let data = PhraseData::default();
    assert!(export(&mut files, &data, "out.json"));
    assert_eq!(import(&files, "out.json").unwrap(), data);
}

#[test]
fn export_overwrites_existing_file_and_leaves_no_tmp() {
    let mut files = Files::new();
    files.insert("out.json".to_string(), "旧导出,不该被截断成半截".to_string());
    files.insert("out.old".to_string(), "用户自己的文件".to_string());
    let data = PhraseData::default();
    assert!(export(&mut files, &data, "out.json"));
    let text = files.get("out.json").unwrap();
    assert!(from_text(text).is_ok());
    assert!(!files.contains_key(&with_extension("out.json", "petphrase-export-tmp")));
    assert_eq!(files.get("out.old").unwrap(), "用户自己的文件");
}

#[test]
fn the_names_of_the_files() {
    assert_eq!(PHRASES_FILE, "phrases.json");
    assert_eq!(BACKUP_FILE, "phrases.backup.json");
    assert_eq!(SETTINGS_FILE, "settings.json");
    assert_eq!(SETTINGS_BACKUP_FILE, "settings.backup.json");
    assert_eq!(PRE_IMPORT_FILE, "phrases.pre-import.json");
}

#[test]
fn new_users_start_with_these() {
    let data = PhraseData::default();
    let g = &data.groups[0];
    assert_eq!((g.id.as_str(), g.icon.as_deref()), ("g-default", Some("star")));
    let phrases: Vec<_> =
        g.phrases.iter().map(|p| (p.id.as_str(), p.text.as_str(), p.use_count)).collect();
    assert_eq!(
        phrases,
        vec![
            ("p-1", "收到,马上处理", 0),
            ("p-2", "好的,没问题", 0),
            ("p-3", "您好,感谢您的反馈,我们已经记录了这个问题,会尽快给您答复。", 0),
        ]
    );
    let s = Settings::default();
    assert_eq!((s.pet_pos, s.last_group, s.custom_pet_dir), (None, None, None));
    assert!(s.auto_check_update && !s.sort_by_use);
    assert_eq!(data.clone(), data);
}

#[test]
fn the_steps_of_replacing_a_file() {
    let steps = |failing: FileOp| {
        let mut w = atomic_write(true);
        let mut ops = Vec::new();
        while let Some(op) = w.op() {
            ops.push((op, w.is_decisive()));
            w.report(op != failing);
        }
        assert!(w.is_written());
        ops
    };
    let first = vec![
        (FileOp::CreateParent, true),
        (FileOp::WriteTmp, true),
        (FileOp::LookForMain, false),
    ];
    let set_aside = vec![
        (FileOp::LookForOld, false),
        (FileOp::Rename(Slot::Main, Slot::Old), true),
        (FileOp::Rename(Slot::Tmp, Slot::Main), true),
        (FileOp::Remove(Slot::Old), false),
    ];
    let move_over = vec![
        (FileOp::LookForOld, false),
        (FileOp::Rename(Slot::Tmp, Slot::Main), true),
        (FileOp::Remove(Slot::Old), false),
    ];
    let move_in = vec![(FileOp::Rename(Slot::Tmp, Slot::Main), true)];
    assert_eq!(steps(FileOp::LookForOld), [first.clone(), set_aside].concat());
    assert_eq!(steps(FileOp::Remove(Slot::Old)), [first.clone(), move_over].concat());
    assert_eq!(steps(FileOp::LookForMain), [first, move_in].concat());
    assert_eq!(atomic_write(false).op(), Some(FileOp::WriteTmp));
}

#[test]
fn a_directory_that_cannot_be_made() {
    let mut files = Files::new();
    let mut w = atomic_write(true);
    assert!(!finish(&mut w, &mut files, "a.json", "tmp", "new", &[FileOp::CreateParent]));
    assert!(files.is_empty());
}

#[test]
fn failed_writes_leave_the_file_and_no_rubbish() {
    let failures = [
        FileOp::WriteTmp,
        FileOp::Rename(Slot::Main, Slot::Old),
        FileOp::Rename(Slot::Tmp, Slot::Main),
    ];
    for failure in failures {
        let mut files = Files::new();
        files.insert("a.json".to_string(), "before".to_string());
        let mut w = atomic_write(true);
        assert!(!finish(&mut w, &mut files, "a.json", "tmp", "new", &[failure]));
        assert_eq!(files.get("a.json").unwrap(), "before", "{:?}", failure);
        assert_eq!(files.len(), 1, "{:?}", failure);
    }
}

#[test]
fn a_failed_first_write_leaves_nothing() {
    let mut files = Files::new();
    let mut w = atomic_write(true);
    let failure = FileOp::Rename(Slot::Tmp, Slot::Main);
    assert!(!finish(&mut w, &mut files, "a.json", "tmp", "new", &[failure]));
    assert!(files.is_empty());
}

#[test]
fn a_failed_export_leaves_the_file() {
    for failure in [FileOp::WriteTmp, FileOp::Rename(Slot::Tmp, Slot::Main)] {
        let mut files = Files::new();
        files.insert("out.json".to_string(), "before".to_string());
        let mut w = export_phrases();
        assert!(!finish(&mut w, &mut files, "out.json", "x-tmp", "new", &[failure]));
        assert_eq!(files.get("out.json").unwrap(), "before");
        assert_eq!(files.len(), 1);
    }
}

#[test]
fn a_write_cut_short_anywhere_loses_nothing() {
    let before = PhraseData::default();
    let mut after = PhraseData::default();
    after.groups[0].name = "改过".to_string();
    for steps in 0..9 {
        let mut files = Files::new();
        assert!(save_phrases(&mut files, &before));
        let mut w = atomic_write(true);
        for _ in 0..steps {
            if let Some(op) = w.op() {
                let ok = perform(&mut files, PHRASES_FILE, "tmp", &to_text(&after), op);
                w.report(ok);
            }
        }
        let now = load(&mut files);
        assert!(now == before || now == after, "after {} steps", steps);
        assert_eq!(now == after, steps >= 6, "after {} steps", steps);
    }
}

/// An interrupted swap: the file is corrupt, its former version is good.
fn interrupted() -> Files {
    let mut files = Files::new();
    files.insert("phrases.old".to_string(), to_text(&PhraseData::default()));
    files.insert("phrases.json".to_string(), "{broken".to_string());
    files
}

#[test]
fn a_former_version_beside_a_corrupt_file_is_kept() {
    let before = PhraseData::default();
    let after = PhraseData { groups: Vec::new() };
    for steps in 0..9 {
        let mut files = interrupted();
        let mut w = atomic_write(true);
        for _ in 0..steps {
            if let Some(op) = w.op() {
                let ok = perform(&mut files, PHRASES_FILE, "tmp", &to_text(&after), op);
                w.report(ok);
            }
        }
        let now = load(&mut files);
        assert!(now == before || now == after, "after {} steps", steps);
        assert_eq!(now == after, steps >= 5, "after {} steps", steps);
        if steps == 8 {
            assert!(w.is_written());
            assert_eq!(files.len(), 1, "nothing is left behind");
        }
    }
}

#[test]
fn a_failed_write_beside_a_corrupt_file_keeps_the_former_version() {
    for failure in [FileOp::WriteTmp, FileOp::Rename(Slot::Tmp, Slot::Main)] {
        let mut files = interrupted();
        let mut w = atomic_write(true);
        let text = "{\"groups\":[]}";
        assert!(!finish(&mut w, &mut files, PHRASES_FILE, "tmp", text, &[failure]));
        assert_eq!(files, interrupted());
        assert_eq!(load(&mut files), PhraseData::default());
    }
}

#[test]
fn a_former_version_that_cannot_be_looked_for_is_kept_too() {
    let mut w = atomic_write(false);
    while w.op() != Some(FileOp::LookForOld) {
        w.report(true);
    }
    // that it cannot be told whether it is there counts as success
    w.report(true);
    assert_eq!(w.op(), Some(FileOp::Rename(Slot::Tmp, Slot::Main)));
    w.report(false);
    assert_eq!(w.op(), Some(FileOp::Remove(Slot::Tmp)));
    w.report(true);
    assert_eq!(w.op(), None);
    assert!(!w.is_written());
}

#[test]
fn sources_are_looked_at_in_order() {
    assert!(matches!(load_step::<u8>(Source::Main, None), LoadStep::Read(Source::MainOld)));
    assert!(matches!(load_step::<u8>(Source::MainOld, None), LoadStep::Read(Source::Backup)));
    assert!(matches!(load_step::<u8>(Source::Backup, None), LoadStep::Read(Source::BackupOld)));
    assert!(matches!(load_step::<u8>(Source::BackupOld, None), LoadStep::Missing));
    for (source, expected) in [
        (Source::Main, false),
        (Source::MainOld, false),
        (Source::Backup, true),
        (Source::BackupOld, true),
    ] {
        match load_step(source, Some(7)) {
            LoadStep::Found { value, rewrite_main } => {
                assert_eq!((value, rewrite_main), (7, expected))
            }
            _ => panic!("not found"),
        }
    }
}

#[test]
fn a_corrupt_file_does_not_replace_a_backup() {
    let mut files = Files::new();
    files.insert("phrases.json".to_string(), "{broken".to_string());
    files.insert("phrases.backup.json".to_string(), "good".to_string());
    back_up(&mut files);
    assert_eq!(files.get("phrases.backup.json").unwrap(), "good");
    assert_eq!(backup_settings::<u8>(Some("t".to_string()), &None), None);
    assert_eq!(backup_settings(Some("t".to_string()), &Some(1)), Some("t".to_string()));
    assert_eq!(backup_phrases(None, &None), None);
}
