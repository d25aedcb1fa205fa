//! The tabs of the browser and the header above them.
use vstd::prelude::*;

use crate::forms::FormMethod;
use crate::forms::FormNavigation;
use crate::forms::NavigationModel;
use crate::text::texts_of;
use crate::urls::parse_url;
use crate::urls::parsed_url;

verus! {

/// The address that a new tab opens.
pub fn new_tab_url() -> (r: String)
    ensures
        r@ == "https://www.google.com"@,
{
    "https://www.google.com".to_owned()
}

/// The addresses of the tabs, which of them is shown, and the address that the header shows.
#[derive(Debug)]
pub struct Tabs {
    pub urls: Vec<String>,
    pub current: usize,
    pub header_url: String,
}

/// What a [`Tabs`] holds.
#[verifier::ext_equal]
pub struct TabsModel {
    pub urls: Seq<Seq<char>>,
    pub current: usize,
    pub header_url: Seq<char>,
}

impl View for Tabs {
    type V = TabsModel;

    open spec fn view(&self) -> TabsModel {
        TabsModel {
            urls: texts_of(self.urls@),
            current: self.current,
            header_url: self.header_url@,
        }
    }
}

impl TabsModel {
    /// The tab that is shown exists.
    pub open spec fn wf(self) -> bool {
        self.current < self.urls.len()
    }
}

/// What the user asks for in the header.
#[derive(Debug)]
pub enum BrowserAction {
    OpenTab(String),
    SelectTab(usize),
    Rerender,
    Navigate(String),
}

/// What follows: whether the header is painted again, and where the tab that is shown is sent.
#[derive(Debug)]
pub enum HeaderOutcome {
    Rerender,
    Send(FormNavigation),
    /// The address cannot be read; what was asked for after it waits.
    Stop,
    /// There is no such tab.
    Ignore,
}

/// What a [`HeaderOutcome`] holds.
pub enum OutcomeModel {
    Rerender,
    Send(NavigationModel),
    Stop,
    Ignore,
}

impl View for HeaderOutcome {
    type V = OutcomeModel;

    open spec fn view(&self) -> OutcomeModel {
        match *self {
            HeaderOutcome::Rerender => OutcomeModel::Rerender,
            HeaderOutcome::Send(navigation) => OutcomeModel::Send(navigation@),
            HeaderOutcome::Stop => OutcomeModel::Stop,
            HeaderOutcome::Ignore => OutcomeModel::Ignore,
        }
    }
}

/// The tabs after the user has asked for something, and what follows.
pub open spec fn after_action(tabs: TabsModel, action: BrowserAction) -> (TabsModel, OutcomeModel) {
    match action {
        BrowserAction::OpenTab(url) => (
            TabsModel {
                urls: tabs.urls.push(url@),
                current: tabs.urls.len() as usize,
                header_url: url@,
            },
            OutcomeModel::Rerender,
        ),
        BrowserAction::SelectTab(idx) => if idx < tabs.urls.len() {
            (
                TabsModel { current: idx, header_url: tabs.urls[idx as int], ..tabs },
                OutcomeModel::Rerender,
            )
        } else {
            (tabs, OutcomeModel::Ignore)
        },
        BrowserAction::Rerender => (tabs, OutcomeModel::Rerender),
        BrowserAction::Navigate(text) => match parsed_url(text@) {
            Some(url) => (
                TabsModel {
                    urls: tabs.urls.update(tabs.current as int, url),
                    current: tabs.current,
                    header_url: url,
                },
                OutcomeModel::Send(
                    NavigationModel { url, method: FormMethod::Get, body: None },
                ),
            ),
            None => (tabs, OutcomeModel::Stop),
        },
    }
}

impl Tabs {
    /// One tab, which is shown.
    pub fn new(url: String) -> (r: Tabs)
        ensures
            r@ == (TabsModel { urls: seq![url@], current: 0, header_url: url@ }),
            r@.wf(),
    {
        let mut urls: Vec<String> = Vec::new();
        let header_url = url.clone();
        urls.push(url);
        let r = Tabs { urls, current: 0, header_url };
        assert(r@ =~= (TabsModel { urls: seq![url@], current: 0, header_url: url@ }));
        r
    }

    /// Does what the user asks for in the header.
    pub fn poll_header_events(&mut self, action: BrowserAction) -> (r: HeaderOutcome)
        requires
            old(self)@.wf(),
        ensures
            final(self)@.wf(),
            (final(self)@, r@) == after_action(old(self)@, action),
    {
        let ghost start = self@;
        match action {
            BrowserAction::OpenTab(url) => {
                self.current = self.urls.len();
                self.header_url = url.clone();
                self.urls.push(url);
                assert(self@ =~= after_action(start, action).0);
                HeaderOutcome::Rerender
            },
            BrowserAction::SelectTab(idx) => {
                if idx < self.urls.len() {
                    self.current = idx;
                    self.header_url = self.urls[idx].clone();
                    assert(self@ =~= after_action(start, action).0);
                    HeaderOutcome::Rerender
                } else {
                    HeaderOutcome::Ignore
                }
            },
            BrowserAction::Rerender => HeaderOutcome::Rerender,
            BrowserAction::Navigate(text) => match parse_url(text.as_str()) {
                Some(url) => {
                    let current: usize = self.current;
                    self.urls.set(current, url.clone());
                    self.header_url = url.clone();
                    assert(self@ =~= after_action(start, action).0);
                    HeaderOutcome::Send(FormNavigation { url, method: FormMethod::Get, body: None })
                },
                None => HeaderOutcome::Stop,
            },
        }
    }

    /// A tab has gone to another address. Gives whether it is the one that is shown, whose address
    /// the header shows then.
    pub fn tab_url_updated(&mut self, idx: usize, url: String) -> (r: bool)
        requires
            old(self)@.wf(),
        ensures
            final(self)@.wf(),
            r == (idx == old(self).current),
            final(self)@ == (TabsModel {
                urls: if idx < old(self)@.urls.len() {
                    old(self)@.urls.update(idx as int, url@)
                } else {
                    old(self)@.urls
                },
                current: old(self).current,
                header_url: if r {
                    url@
                } else {
                    old(self)@.header_url
                },
            }),
    {
        let ghost start = self@;
        let shown = idx == self.current;
        if shown {
            self.header_url = url.clone();
        }
        if idx < self.urls.len() {
            self.urls.set(idx, url);
        }
        assert(self@.urls =~= (if idx < start.urls.len() {
            start.urls.update(idx as int, url@)
        } else {
            start.urls
        }));
        shown
    }
}

/// Whatever the user asks for, the tab that is shown exists, and no tab is lost; and where the header
/// showed the address of the tab that is shown, it does so afterwards.
pub proof fn lemma_header_shows_current_tab(tabs: TabsModel, action: BrowserAction)
    requires
        tabs.wf(),
        tabs.urls.len() < usize::MAX,
        tabs.header_url == tabs.urls[tabs.current as int],
    ensures
        ({
            let after = after_action(tabs, action).0;
            &&& after.wf()
            &&& after.urls.len() >= tabs.urls.len()
            &&& after.header_url == after.urls[after.current as int]
        }),
{
}

} // verus!
