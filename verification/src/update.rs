//! Looking for a new version and installing it, one thing at a time.

use vstd::prelude::*;
use vstd::string::StringExecFns;

verus! {

/// Time from the start of the program to the first search for a new version, in
/// milliseconds.
pub const FIRST_CHECK_MS: u64 = 10 * 1000;

/// Time from one search to the next, in milliseconds: a day.
pub const CHECK_AGAIN_MS: u64 = 24 * 3600 * 1000;

/// How far an update has come.
#[derive(Debug, PartialEq)]
pub struct Updates {
    /// Whether something is under way.
    busy: bool,
    /// The new version, once one was found.
    found: Option<String>,
}

/// What `Updates` hold.
#[verifier::ext_equal]
pub struct UpdatesView {
    pub busy: bool,
    pub found: Option<Seq<char>>,
}

impl View for Updates {
    type V = UpdatesView;

    closed spec fn view(&self) -> UpdatesView {
        UpdatesView { busy: self.busy, found: crate::storage::text_view(self.found) }
    }
}

/// What to show of an update.
#[derive(Debug, PartialEq)]
pub struct UpdateNotice {
    /// The message; nothing to leave it as it is.
    pub message: Option<String>,
    /// Whether it is an error; nothing to leave that as it is.
    pub is_error: Option<bool>,
    /// The new text of the entry in the tray's menu, once a version is found.
    pub menu_text: Option<String>,
}

/// What an `UpdateNotice` says.
#[verifier::ext_equal]
pub struct NoticeView {
    pub message: Option<Seq<char>>,
    pub is_error: Option<bool>,
    pub menu_text: Option<Seq<char>>,
}

impl View for UpdateNotice {
    type V = NoticeView;

    open spec fn view(&self) -> NoticeView {
        NoticeView {
            message: crate::storage::text_view(self.message),
            is_error: self.is_error,
            menu_text: crate::storage::text_view(self.menu_text),
        }
    }
}

/// Nothing to show.
pub open spec fn silence() -> NoticeView {
    NoticeView { message: None, is_error: None, menu_text: None }
}

/// What a search came to: a version, none, or an error.
pub enum Search {
    Found(Seq<char>),
    UpToDate,
    Failed(Seq<char>),
}

/// What a search came to.
pub open spec fn search_of(result: Result<Option<String>, String>) -> Search {
    match result {
        Ok(Some(v)) => Search::Found(v@),
        Ok(None) => Search::UpToDate,
        Err(e) => Search::Failed(e@),
    }
}

/// What to show of a search. One that the user did not ask for speaks up only if
/// it found something.
pub open spec fn search_notice(search: Search, manual: bool) -> NoticeView {
    match search {
        Search::Found(v) => NoticeView {
            message: Some("发现新版 v"@ + v),
            is_error: None,
            menu_text: Some("升级到 v"@ + v),
        },
        Search::UpToDate => if manual {
            NoticeView {
                message: Some("已是最新版本 ✓"@),
                is_error: Some(false),
                menu_text: None,
            }
        } else {
            silence()
        },
        Search::Failed(e) => if manual {
            NoticeView { message: Some("检查失败:"@ + e), is_error: Some(true), menu_text: None }
        } else {
            silence()
        },
    }
}

impl UpdatesView {
    /// A search may start.
    pub open spec fn may_search(self) -> bool {
        !self.busy && self.found is None
    }

    /// An installation may start.
    pub open spec fn may_install(self) -> bool {
        !self.busy && self.found is Some
    }
}

impl Updates {
    /// Nothing found, nothing under way.
    pub fn new() -> (r: Self)
        ensures
            r@ == (UpdatesView { busy: false, found: None }),
    {
        Updates { busy: false, found: None }
    }

    /// Whether a new version was found.
    pub fn is_found(&self) -> (r: bool)
        ensures
            r == (self@.found is Some),
    {
        self.found.is_some()
    }

    /// Starts a search, if one may start, with what to show then. `manual` says
    /// that the user asked for it.
    pub fn start_update_check(&mut self, manual: bool) -> (r: Option<UpdateNotice>)
        ensures
            r is Some <==> old(self)@.may_search(),
            final(self)@ == (if old(self)@.may_search() {
                UpdatesView { busy: true, ..old(self)@ }
            } else {
                old(self)@
            }),
            r matches Some(n) ==> n@ == (if manual {
                NoticeView {
                    message: Some("正在检查更新…"@),
                    is_error: Some(false),
                    menu_text: None,
                }
            } else {
                silence()
            }),
    {
        if self.busy || self.found.is_some() {
            return None;
        }
        self.busy = true;
        if manual {
            Some(
                UpdateNotice {
                    message: Some("正在检查更新…".to_owned()),
                    is_error: Some(false),
                    menu_text: None,
                },
            )
        } else {
            Some(UpdateNotice { message: None, is_error: None, menu_text: None })
        }
    }

    /// It is time to look for a new version: starts a search that the user did
    /// not ask for, if the user wants that and one may start.
    pub fn check_due(&mut self, auto_check: bool) -> (r: Option<UpdateNotice>)
        ensures
            r is Some <==> auto_check && old(self)@.may_search(),
            final(self)@ == (if auto_check && old(self)@.may_search() {
                UpdatesView { busy: true, ..old(self)@ }
            } else {
                old(self)@
            }),
            r matches Some(n) ==> n@ == silence(),
    {
        if auto_check {
            self.start_update_check(false)
        } else {
            None
        }
    }

    /// A search is over.
    pub fn check_finished(&mut self, manual: bool, result: Result<Option<String>, String>) -> (r:
        UpdateNotice)
        ensures
            r@ == search_notice(search_of(result), manual),
            !final(self)@.busy,
            final(self)@.found == (match search_of(result) {
                Search::Found(v) => Some(v),
                _ => old(self)@.found,
            }),
    {
        self.busy = false;
        match result {
            Ok(Some(version)) => {
                let message = "发现新版 v".to_owned().concat(version.as_str());
                let menu_text = "升级到 v".to_owned().concat(version.as_str());
                self.found = Some(version);
                UpdateNotice { message: Some(message), is_error: None, menu_text: Some(menu_text) }
            },
            Ok(None) => if manual {
                UpdateNotice {
                    message: Some("已是最新版本 ✓".to_owned()),
                    is_error: Some(false),
                    menu_text: None,
                }
            } else {
                UpdateNotice { message: None, is_error: None, menu_text: None }
            },
            Err(e) => if manual {
                UpdateNotice {
                    message: Some("检查失败:".to_owned().concat(e.as_str())),
                    is_error: Some(true),
                    menu_text: None,
                }
            } else {
                UpdateNotice { message: None, is_error: None, menu_text: None }
            },
        }
    }

    /// Starts to download the version that was found, if that may start: the
    /// version, and what to show then.
    pub fn start_update_install(&mut self) -> (r: Option<(String, UpdateNotice)>)
        ensures
            r is Some <==> old(self)@.may_install(),
            final(self)@ == (if old(self)@.may_install() {
                UpdatesView { busy: true, ..old(self)@ }
            } else {
                old(self)@
            }),
            r matches Some((v, n)) ==> Some(v@) == old(self)@.found && n@ == (NoticeView {
                message: Some("正在下载 v"@ + v@ + "…"@),
                is_error: Some(false),
                menu_text: None,
            }),
    {
        if self.busy {
            return None;
        }
        match &self.found {
            None => None,
            Some(v) => {
                let version = v.clone();
                let message = "正在下载 v".to_owned().concat(version.as_str()).concat("…");
                self.busy = true;
                Some(
                    (
                        version,
                        UpdateNotice {
                            message: Some(message),
                            is_error: Some(false),
                            menu_text: None,
                        },
                    ),
                )
            },
        }
    }

    /// The download failed, or what came is not what was announced.
    pub fn download_failed(&mut self, error: &str) -> (r: UpdateNotice)
        ensures
            final(self)@ == (UpdatesView { busy: false, ..old(self)@ }),
            r@ == (NoticeView {
                message: Some("更新失败:"@ + error@),
                is_error: Some(true),
                menu_text: None,
            }),
    {
        self.busy = false;
        UpdateNotice {
            message: Some("更新失败:".to_owned().concat(error)),
            is_error: Some(true),
            menu_text: None,
        }
    }

    /// The installer could not be started; what it says is shown as it is.
    pub fn launch_failed(&mut self, error: String) -> (r: UpdateNotice)
        ensures
            final(self)@ == (UpdatesView { busy: false, ..old(self)@ }),
            r@ == (NoticeView { message: Some(error@), is_error: Some(true), menu_text: None }),
    {
        self.busy = false;
        UpdateNotice { message: Some(error), is_error: Some(true), menu_text: None }
    }
}

/// There is never more than one thing under way: while something is, neither a
/// search nor an installation may start; and of the two, at most one ever may.
pub proof fn one_thing_at_a_time(u: UpdatesView)
    ensures
        u.busy ==> !u.may_search() && !u.may_install(),
        !(u.may_search() && u.may_install()),
        !u.busy ==> u.may_search() || u.may_install(),
{
}

/// A search that the user did not ask for says something exactly when it found a
/// version.
pub proof fn a_silent_search_speaks_of_finds_only(search: Search)
    ensures
        search_notice(search, false) != silence() <==> search is Found,
{
    if let Search::Found(v) = search {
        assert(search_notice(search, false).message is Some);
    }
}

/// What is shown of a search tells the version that was found, or the error, and
/// of the rest only what the user asked for.
pub proof fn a_search_tells_what_it_found(v: Seq<char>, e: Seq<char>, manual: bool)
    ensures
        search_notice(Search::Found(v), manual).message == Some("发现新版 v"@ + v),
        search_notice(Search::Found(v), manual).menu_text == Some("升级到 v"@ + v),
        search_notice(Search::Found(v), manual).is_error is None,
        search_notice(Search::UpToDate, true).message == Some("已是最新版本 ✓"@),
        search_notice(Search::UpToDate, true).is_error == Some(false),
        search_notice(Search::Failed(e), true).message == Some("检查失败:"@ + e),
        search_notice(Search::Failed(e), true).is_error == Some(true),
        search_notice(Search::UpToDate, manual).menu_text is None,
        search_notice(Search::Failed(e), manual).menu_text is None,
        silence().message is None && silence().is_error is None && silence().menu_text is None,
{
}

/// What a search came to is what was fetched.
pub proof fn a_search_is_what_was_fetched(v: String, e: String)
    ensures
        search_of(Ok(Some(v))) == Search::Found(v@),
        search_of(Ok(None)) == Search::UpToDate,
        search_of(Err(e)) == Search::Failed(e@),
{
}

/// A search may start exactly while nothing is under way and nothing is found,
/// an installation exactly while nothing is under way and something is found.
pub proof fn what_may_start(u: UpdatesView)
    ensures
        u.may_search() <==> !u.busy && u.found is None,
        u.may_install() <==> !u.busy && u.found is Some,
{
}

} // verus!
