//! Loading a web page for reading, as a sequence of decisions: the cache first (unless a
//! refresh is asked for), then a fetch with the saved session's or the browser's cookies (and
//! once more without cookies when that fails), or the visible browser in interactive mode;
//! then the extraction of the readable content, and what is stored afterwards.
use vstd::prelude::*;
use crate::web::WebPage;
use crate::text::owned;

verus! {

/// Where the loading stands.
#[derive(Debug)]
pub enum WebStage {
    Start,
    ReadingCache,
    ReadingSession,
    ReadingCookies,
    Fetching { cookies_used: bool },
    FetchingPlain,
    FetchingHeadless,
    Extracting,
    SavingCache { page: WebPage },
    ReadingSessionCookies { page: WebPage },
    SavingSession { page: WebPage },
    Finished,
}

/// What the program reports back.
#[derive(Debug)]
pub enum WebEvent {
    Begin,
    /// The cached page, if there is a fresh one.
    Cache(Option<WebPage>),
    /// The browser's cookies for the URL.
    Cookies(Vec<(String, String)>),
    /// The saved session's cookies, if there is a fresh session.
    Session(Option<Vec<(String, String)>>),
    /// The HTML fetched, or the error's message.
    Fetched(Result<String, String>),
    /// The readable content extracted, or the error's message.
    Extracted(Result<WebPage, String>),
    /// What was asked to be stored has been (or could not be; that is ignored).
    Saved,
}

/// What the program is asked to do next.
#[derive(Debug)]
pub enum WebAction {
    ReadCache,
    ReadBrowserCookies,
    ReadSession { domain: String },
    Fetch { cookies: Vec<(String, String)> },
    FetchPlain,
    FetchHeadless { cookies: Vec<(String, String)> },
    Extract { html: String },
    SaveCache { page: WebPage },
    SaveSession { domain: String, cookies: Vec<(String, String)> },
    Done(WebPage),
    Fail(String),
}

/// The loading of one page.
pub struct WebLoader {
    pub url: String,
    pub refresh: bool,
    pub interactive: bool,
    pub stage: WebStage,
}

/// Which events a stage waits for.
pub open spec fn accepts(stage: WebStage, event: WebEvent) -> bool {
    match stage {
        WebStage::Start => event is Begin,
        WebStage::ReadingCache => event is Cache,
        WebStage::ReadingSession => event is Session,
        WebStage::ReadingCookies => event is Cookies,
        WebStage::Fetching { .. } => event is Fetched,
        WebStage::FetchingPlain => event is Fetched,
        WebStage::FetchingHeadless => event is Fetched,
        WebStage::Extracting => event is Extracted,
        WebStage::SavingCache { .. } => event is Saved,
        WebStage::ReadingSessionCookies { .. } => event is Cookies,
        WebStage::SavingSession { .. } => event is Saved,
        WebStage::Finished => false,
    }
}

/// The message when the content cannot be extracted: in interactive mode a plain one, else
/// one that suggests interactive mode and carries the extractor's message.
pub open spec fn extraction_message(interactive: bool, e: Seq<char>) -> Seq<char> {
    if interactive {
        "无法提取正文"@
    } else {
        "无法提取正文，尝试使用 -i 模式: "@ + e
    }
}

/// How fetching starts: the browser's cookies for the visible browser in interactive mode,
/// otherwise the saved session of the URL's domain.
pub open spec fn fetch_start_ok(l: WebLoader, stage: WebStage, action: WebAction) -> bool {
    if l.interactive {
        stage is ReadingCookies && action is ReadBrowserCookies
    } else {
        stage is ReadingSession && (action matches WebAction::ReadSession { domain } && domain@
            == crate::web::domain_of(l.url@))
    }
}

impl WebLoader {
    /// The loading of `url`, not begun.
    pub fn new(url: String, refresh: bool, interactive: bool) -> (res: Self)
        ensures
            res.url == url,
            res.refresh == refresh,
            res.interactive == interactive,
            res.stage is Start,
    {
        WebLoader { url, refresh, interactive, stage: WebStage::Start }
    }

    fn start_fetch(&mut self) -> (action: WebAction)
        ensures
            final(self).url == old(self).url,
            final(self).refresh == old(self).refresh,
            final(self).interactive == old(self).interactive,
            fetch_start_ok(*old(self), final(self).stage, action),
    {
        if self.interactive {
            self.stage = WebStage::ReadingCookies;
            WebAction::ReadBrowserCookies
        } else {
            self.stage = WebStage::ReadingSession;
            WebAction::ReadSession { domain: crate::web::extract_domain(self.url.as_str()) }
        }
    }

    /// The next thing to do, given what the program reports.
    pub fn step(&mut self, event: WebEvent) -> (action: WebAction)
        requires
            accepts(old(self).stage, event),
        ensures
            final(self).url == old(self).url,
            final(self).refresh == old(self).refresh,
            final(self).interactive == old(self).interactive,
            match (old(self).stage, event) {
                (WebStage::Start, _) => if old(self).refresh {
                    fetch_start_ok(*old(self), final(self).stage, action)
                } else {
                    final(self).stage is ReadingCache && action is ReadCache
                },
                (WebStage::ReadingCache, WebEvent::Cache(cached)) => match cached {
                    Some(p) => final(self).stage is Finished && action == WebAction::Done(p),
                    None => fetch_start_ok(*old(self), final(self).stage, action),
                },
                (WebStage::ReadingSession, WebEvent::Session(saved)) => match saved {
                    Some(c) => final(self).stage == (WebStage::Fetching { cookies_used: c@.len() > 0 })
                        && action == (WebAction::Fetch { cookies: c }),
                    None => final(self).stage is ReadingCookies && action is ReadBrowserCookies,
                },
                (WebStage::ReadingCookies, WebEvent::Cookies(c)) => if old(self).interactive {
                    final(self).stage is FetchingHeadless && action == (WebAction::FetchHeadless { cookies: c })
                } else {
                    final(self).stage == (WebStage::Fetching { cookies_used: c@.len() > 0 }) && action
                        == (WebAction::Fetch { cookies: c })
                },
                (WebStage::Fetching { cookies_used }, WebEvent::Fetched(r)) => match r {
                    Ok(html) => final(self).stage is Extracting && action == (WebAction::Extract { html }),
                    Err(e) => if cookies_used {
                        final(self).stage is FetchingPlain && action is FetchPlain
                    } else {
                        final(self).stage is Finished && action == WebAction::Fail(e)
                    },
                },
                (WebStage::FetchingPlain, WebEvent::Fetched(r)) | (WebStage::FetchingHeadless, WebEvent::Fetched(r)) => match r {
                    Ok(html) => final(self).stage is Extracting && action == (WebAction::Extract { html }),
                    Err(e) => final(self).stage is Finished && action == WebAction::Fail(e),
                },
                (WebStage::Extracting, WebEvent::Extracted(r)) => match r {
                    Ok(p) => final(self).stage == (WebStage::SavingCache { page: p }) && (action matches WebAction::SaveCache {
                        page: q,
                    } && crate::web::same_page(q, p)),
                    Err(e) => final(self).stage is Finished && (action matches WebAction::Fail(m) && m@ == extraction_message(
                        old(self).interactive,
                        e@,
                    )),
                },
                (WebStage::SavingCache { page }, _) => if old(self).interactive {
                    final(self).stage is Finished && action == WebAction::Done(page)
                } else {
                    final(self).stage == (WebStage::ReadingSessionCookies { page }) && action is ReadBrowserCookies
                },
                (WebStage::ReadingSessionCookies { page }, WebEvent::Cookies(c)) => if c@.len() > 0 {
                    final(self).stage == (WebStage::SavingSession { page }) && (action matches WebAction::SaveSession {
                        domain,
                        cookies,
                    } && domain@ == crate::web::domain_of(old(self).url@) && cookies == c)
                } else {
                    final(self).stage is Finished && action == WebAction::Done(page)
                },
                (WebStage::SavingSession { page }, _) => final(self).stage is Finished && action == WebAction::Done(page),
                _ => false,
            },
    {
        let mut stage = WebStage::Finished;
        std::mem::swap(&mut stage, &mut self.stage);
        match (stage, event) {
            (WebStage::Start, _) => {
                if self.refresh {
                    self.start_fetch()
                } else {
                    self.stage = WebStage::ReadingCache;
                    WebAction::ReadCache
                }
            },
            (WebStage::ReadingCache, WebEvent::Cache(cached)) => match cached {
                Some(p) => WebAction::Done(p),
                None => self.start_fetch(),
            },
            (WebStage::ReadingSession, WebEvent::Session(saved)) => match saved {
                Some(c) => {
                    self.stage = WebStage::Fetching { cookies_used: c.len() > 0 };
                    WebAction::Fetch { cookies: c }
                },
                None => {
                    self.stage = WebStage::ReadingCookies;
                    WebAction::ReadBrowserCookies
                },
            },
            (WebStage::ReadingCookies, WebEvent::Cookies(c)) => {
                if self.interactive {
                    self.stage = WebStage::FetchingHeadless;
                    WebAction::FetchHeadless { cookies: c }
                } else {
                    self.stage = WebStage::Fetching { cookies_used: c.len() > 0 };
                    WebAction::Fetch { cookies: c }
                }
            },
            (WebStage::Fetching { cookies_used }, WebEvent::Fetched(r)) => match r {
                Ok(html) => {
                    self.stage = WebStage::Extracting;
                    WebAction::Extract { html }
                },
                Err(e) => {
                    if cookies_used {
                        self.stage = WebStage::FetchingPlain;
                        WebAction::FetchPlain
                    } else {
                        WebAction::Fail(e)
                    }
                },
            },
            (WebStage::FetchingPlain, WebEvent::Fetched(r)) | (WebStage::FetchingHeadless, WebEvent::Fetched(r)) => match r {
                Ok(html) => {
                    self.stage = WebStage::Extracting;
                    WebAction::Extract { html }
                },
                Err(e) => WebAction::Fail(e),
            },
            (WebStage::Extracting, WebEvent::Extracted(r)) => match r {
                Ok(p) => {
                    let q = crate::web::copy_page(&p);
                    self.stage = WebStage::SavingCache { page: p };
                    WebAction::SaveCache { page: q }
                },
                Err(e) => {
                    if self.interactive {
                        WebAction::Fail(owned("无法提取正文"))
                    } else {
                        let mut m = owned("无法提取正文，尝试使用 -i 模式: ");
                        crate::text::push_str(&mut m, e.as_str());
                        WebAction::Fail(m)
                    }
                },
            },
            (WebStage::SavingCache { page }, _) => {
                if self.interactive {
                    WebAction::Done(page)
                } else {
                    self.stage = WebStage::ReadingSessionCookies { page };
                    WebAction::ReadBrowserCookies
                }
            },
            (WebStage::ReadingSessionCookies { page }, WebEvent::Cookies(c)) => {
                if c.len() > 0 {
                    self.stage = WebStage::SavingSession { page };
                    WebAction::SaveSession { domain: crate::web::extract_domain(self.url.as_str()), cookies: c }
                } else {
                    WebAction::Done(page)
                }
            },
            (WebStage::SavingSession { page }, _) => WebAction::Done(page),
            (_, _) => WebAction::FetchPlain,
        }
    }
}

} // verus!
