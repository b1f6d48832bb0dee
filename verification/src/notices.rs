//! What the user is told of how things went.

use crate::text::contains;
use vstd::prelude::*;
use vstd::string::StringExecFns;

verus! {

/// What a failure to save is told by, in every message of one.
pub open spec fn save_failure_mark() -> Seq<char> {
    "保存失败"@
}

/// What the user is told when `what` could not be saved.
pub open spec fn save_failed(what: Seq<char>, error: Seq<char>) -> Seq<char> {
    "⚠ "@ + what + "保存失败:"@ + error
}

/// What to show after a save: on the panel, and in the settings if anything
/// changes there.
#[derive(Debug, PartialEq)]
pub struct PersistReport {
    /// The panel's banner; empty for none.
    pub save_error: String,
    /// The message of the settings, and whether it is an error; nothing to leave
    /// it as it is.
    pub data_msg: Option<(String, bool)>,
}

/// Tells of a save of `what` that went as `result` says, while the settings show
/// `data_msg`. A save that succeeds takes back what was told of one that failed,
/// and no other message.
pub fn report_persist(result: Result<(), String>, what: &str, data_msg: &str) -> (r: PersistReport)
    ensures
        match result {
            Ok(_) => {
                &&& r.save_error@.len() == 0
                &&& if crate::text::occurs_in(save_failure_mark(), data_msg@) {
                    r.data_msg matches Some((m, is_err)) && m@.len() == 0 && !is_err
                } else {
                    r.data_msg is None
                }
            },
            Err(e) => {
                &&& r.save_error@ == save_failed(what@, e@)
                &&& r.data_msg matches Some((m, is_err)) && m@ == save_failed(what@, e@) && is_err
            },
        },
{
    match result {
        Ok(()) => PersistReport {
            save_error: String::new(),
            data_msg: if contains(data_msg, "保存失败") {
                Some((String::new(), false))
            } else {
                None
            },
        },
        Err(e) => {
            let mut m = "⚠ ".to_owned();
            m.append(what);
            m.append("保存失败:");
            m.append(e.as_str());
            PersistReport { save_error: m.clone(), data_msg: Some((m, true)) }
        },
    }
}

/// Whatever is told of a save that failed is taken back by one that succeeds.
pub proof fn success_takes_back_failure(what: Seq<char>, error: Seq<char>)
    ensures
        crate::text::occurs_in(save_failure_mark(), save_failed(what, error)),
{
    reveal_strlit("⚠ ");
    reveal_strlit("保存失败");
    reveal_strlit("保存失败:");
    let m = save_failed(what, error);
    let i = 2int + what.len();
    assert(m.subrange(i, i + save_failure_mark().len()) =~= save_failure_mark());
}

/// What the user is told of an export, and whether it is an error.
pub fn export_notice(result: Result<(), String>) -> (r: (String, bool))
    ensures
        match result {
            Ok(_) => r.0@ == "已导出 ✓"@ && !r.1,
            Err(e) => r.0@ == "⚠ 导出失败:"@ + e@ && r.1,
        },
{
    match result {
        Ok(()) => ("已导出 ✓".to_owned(), false),
        Err(e) => ("⚠ 导出失败:".to_owned().concat(e.as_str()), true),
    }
}

/// What the user is told of a file that is not taken in.
pub fn import_failed(error: &str) -> (r: String)
    ensures
        r@ == "⚠ 导入失败:"@ + error@,
{
    "⚠ 导入失败:".to_owned().concat(error)
}

/// How the switch for starting with the system stands after it was put to `on`,
/// and what the user is told: it goes back if that could not be done.
pub fn autostart_toggled(on: bool, result: Result<(), String>) -> (r: (bool, Option<String>))
    ensures
        match result {
            Ok(_) => r.0 == on && r.1 is None,
            Err(e) => r.0 == !on && (r.1 matches Some(m) && m@ == "⚠ 开机自启设置失败:"@ + e@),
        },
{
    match result {
        Ok(()) => (on, None),
        Err(e) => (!on, Some("⚠ 开机自启设置失败:".to_owned().concat(e.as_str()))),
    }
}

/// What to do after an attempt to copy.
#[derive(Debug, Clone, Copy, PartialEq, Eq, Structural)]
pub enum CopyStep {
    /// Get hold of the clipboard anew and try again.
    Retry,
    Copied,
    Failed,
}

/// What to do after the first attempt to copy, or after one that is not the
/// first, by whether the text is on the clipboard. There are two attempts.
pub fn copy_step(is_first: bool, ok: bool) -> (r: CopyStep)
    ensures
        r == (if ok {
            CopyStep::Copied
        } else if is_first {
            CopyStep::Retry
        } else {
            CopyStep::Failed
        }),
{
    if ok {
        CopyStep::Copied
    } else if is_first {
        CopyStep::Retry
    } else {
        CopyStep::Failed
    }
}

/// How the panel answers a copy.
#[derive(Debug, PartialEq)]
pub enum CopyFeedback {
    /// Take the mark from the phrase after so many milliseconds.
    ClearMark { after_ms: u64 },
    /// Hide the panel after so many milliseconds.
    Hide { after_ms: u64 },
    /// Tell the user.
    Tell(String),
}

/// How the panel answers a copy: a panel that is pinned stays, any other goes.
pub fn copy_feedback(copied: bool, pinned: bool) -> (r: CopyFeedback)
    ensures
        copied && pinned ==> r == (CopyFeedback::ClearMark { after_ms: 800 }),
        copied && !pinned ==> r == (CopyFeedback::Hide { after_ms: 200 }),
        !copied ==> (r matches CopyFeedback::Tell(m) && m@
            == "⚠ 复制失败,请重试(剪贴板被其它程序占用)"@),
{
    if !copied {
        CopyFeedback::Tell("⚠ 复制失败,请重试(剪贴板被其它程序占用)".to_owned())
    } else if pinned {
        CopyFeedback::ClearMark { after_ms: 800 }
    } else {
        CopyFeedback::Hide { after_ms: 200 }
    }
}

/// The user is told what could not be saved and why, in that order.
pub proof fn a_failure_tells_what_and_why(what: Seq<char>, error: Seq<char>)
    ensures
        save_failed(what, error) == "⚠ "@ + what + "保存失败:"@ + error,
        save_failure_mark() == "保存失败"@,
{
}

} // verus!
