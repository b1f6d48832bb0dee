//! Taking in data from elsewhere.

use petphrase::import::{import_step, read_import, sanitize_import, FileRead, ImportStep};
use petphrase::storage::{
    Group, Phrase, PhraseData, MAX_GROUPS, MAX_IMPORT_BYTES, MAX_PHRASES_PER_GROUP, MAX_TEXT_CHARS,
};

fn group(id: &str, name: &str, phrases: &[(&str, &str)]) -> Group {
    Group {
        id: id.to_string(),
        name: name.to_string(),
        icon: None,
        phrases: phrases
            .iter()
            .map(|(i, t)| Phrase::new(i.to_string(), t.to_string()))
            .collect(),
    }
}

fn ids(data: &PhraseData) -> Vec<String> {
    let mut all = Vec::new();
    for g in &data.groups {
        all.push(g.id.clone());
        for p in &g.phrases {
            all.push(p.id.clone());
        }
    }
    all
}

#[test]
fn ids_are_repaired_in_order() {
    let mut data = PhraseData {
        groups: vec![
            group("", " 甲 ", &[("x", "one"), ("x", "two"), ("  ", "three")]),
            group("x", "乙", &[("g-imp1", "four"), ("p", "five")]),
        ],
    };
    assert_eq!(sanitize_import(&mut data), Ok(()));
    assert_eq!(
        ids(&data),
        vec!["g-imp1", "x", "p-imp2", "p-imp3", "g-imp4", "p-imp5", "p"]
    );
    assert_eq!(data.groups[0].name, "甲");
}

#[test]
fn repaired_ids_skip_those_in_use() {
    let mut data = PhraseData {
        groups: vec![group("g-imp1", "a", &[("p-imp2", "one")]), group("g-imp1", "b", &[("", "two")])],
    };
    assert_eq!(sanitize_import(&mut data), Ok(()));
    assert_eq!(ids(&data), vec!["g-imp1", "p-imp2", "g-imp2", "p-imp3"]);
    let mut data = PhraseData {
        groups: vec![group("g-imp1", "a", &[]), group("", "b", &[])],
    };
    assert_eq!(sanitize_import(&mut data), Ok(()));
    assert_eq!(ids(&data), vec!["g-imp1", "g-imp2"]);
}

#[test]
fn ids_are_not_trimmed_and_texts_are_kept() {
    let mut data = PhraseData { groups: vec![group(" a ", "A", &[("p", "  two  ")])] };
    data.groups[0].icon = Some("heart".to_string());
    data.groups[0].phrases[0].use_count = 9;
    let before = data.clone();
    assert_eq!(sanitize_import(&mut data), Ok(()));
    assert_eq!(data, before);
}

#[test]
fn blank_phrases_go_and_the_rest_keep_their_order() {
    let mut data = PhraseData {
        groups: vec![group("a", "A", &[("1", ""), ("2", "two"), ("3", "\u{3000}\n"), ("4", "four")])],
    };
    assert_eq!(sanitize_import(&mut data), Ok(()));
    assert_eq!(ids(&data), vec!["a", "2", "4"]);
}

#[test]
fn too_many_groups() {
    let mut data = PhraseData { groups: Vec::new() };
    for i in 0..MAX_GROUPS {
        data.groups.push(group(&format!("g{}", i), "n", &[]));
    }
    assert_eq!(sanitize_import(&mut data.clone()), Ok(()));
    data.groups.push(group("one more", "n", &[]));
    let before = data.clone();
    assert_eq!(sanitize_import(&mut data), Err("分组过多(501,上限 500)".to_string()));
    assert_eq!(data, before, "nothing was touched");
}

#[test]
fn too_many_phrases() {
    let mut g = group("a", " 客服 ", &[]);
    for i in 0..MAX_PHRASES_PER_GROUP {
        g.phrases.push(Phrase::new(format!("p{}", i), "t".to_string()));
    }
    let data = PhraseData { groups: vec![g] };
    let taken = read_import(Ok(data.clone())).unwrap();
    assert_eq!(taken.groups[0].phrases, data.groups[0].phrases);
    assert_eq!(taken.groups[0].name, "客服");
    let mut data = data;
    data.groups[0].phrases.push(Phrase::new("blank".to_string(), " ".to_string()));
    assert_eq!(
        read_import(Ok(data)),
        Err("分组「客服」短语过多(5001,上限 5000)".to_string()),
        "blank ones count"
    );
}

#[test]
fn too_many_characters() {
    let at_limit = "好".repeat(MAX_TEXT_CHARS);
    let data = PhraseData { groups: vec![group("a", "A", &[("p", &at_limit)])] };
    assert!(read_import(Ok(data)).is_ok());
    let over = " ".repeat(MAX_TEXT_CHARS + 5);
    let data = PhraseData { groups: vec![group("a", "A", &[("p", "x"), ("q", &over)])] };
    assert_eq!(read_import(Ok(data)), Err("存在超长短语(10005 字,上限 10000)".to_string()));
}

#[test]
fn files_that_do_not_parse() {
    assert_eq!(
        read_import(Err("EOF".to_string())),
        Err("文件格式不正确: EOF".to_string())
    );
}

fn refusal(step: ImportStep) -> String {
    match step {
        ImportStep::Refuse(m) => m,
        ImportStep::Read => panic!("read"),
        ImportStep::Take(_) => panic!("taken in"),
    }
}

#[test]
fn large_files_are_refused_unread() {
    assert!(matches!(import_step(Ok(0), None), ImportStep::Read));
    assert!(matches!(import_step(Ok(MAX_IMPORT_BYTES), None), ImportStep::Read));
    let told = "文件过大(20MB,上限 20MB)";
    assert_eq!(refusal(import_step(Ok(MAX_IMPORT_BYTES + 1), None)), told);
    let read = FileRead::Parsed(PhraseData::default());
    assert_eq!(refusal(import_step(Ok(MAX_IMPORT_BYTES + 1), Some(read))), told);
    assert_eq!(refusal(import_step(Err("找不到".to_string()), None)), "找不到");
}

#[test]
fn what_was_read_is_taken_in_or_refused() {
    let failed = FileRead::Failed("拒绝访问".to_string());
    assert_eq!(refusal(import_step(Ok(9), Some(failed))), "拒绝访问");
    let malformed = FileRead::Malformed("EOF".to_string());
    assert_eq!(refusal(import_step(Ok(9), Some(malformed))), "文件格式不正确: EOF");
    let long = "x".repeat(MAX_TEXT_CHARS + 1);
    let data = PhraseData { groups: vec![group("a", "A", &[("p", &long)])] };
    assert_eq!(
        refusal(import_step(Ok(9), Some(FileRead::Parsed(data)))),
        "存在超长短语(10001 字,上限 10000)"
    );
    let data = PhraseData { groups: vec![group("a", " A ", &[("p", " "), ("q", "x")])] };
    match import_step(Ok(9), Some(FileRead::Parsed(data))) {
        ImportStep::Take(out) => {
            assert_eq!(out, PhraseData { groups: vec![group("a", "A", &[("q", "x")])] })
        }
        _ => panic!("not taken in"),
    }
}

#[test]
fn taking_in_twice() {
    let data = PhraseData {
        groups: vec![
            group("", "  ", &[("", "one"), ("", "two"), ("p-imp3", "three")]),
            group("", "b", &[("g-imp1", " x "), ("y", "")]),
        ],
    };
    let once = read_import(Ok(data)).unwrap();
    let twice = read_import(Ok(once.clone())).unwrap();
    assert_eq!(once, twice);
    let all = ids(&once);
    let distinct: std::collections::HashSet<_> = all.iter().collect();
    assert_eq!(distinct.len(), all.len());
}

#[test]
fn what_new_users_have_is_clean() {
    let data = PhraseData::default();
    assert_eq!(read_import(Ok(data.clone())), Ok(data));
    let empty = PhraseData { groups: Vec::new() };
    assert_eq!(read_import(Ok(empty.clone())), Ok(empty));
}
