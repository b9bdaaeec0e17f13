//! The portal window: which addresses it opens and where its home is.
use vstd::prelude::*;

use crate::text;
use crate::text::trim;

verus! {

/// The label of the portal window.
pub const PORTAL_LABEL: &'static str = "portal";

/// The title of the portal window where none is given.
pub const DEFAULT_TITLE: &'static str = "业务浏览容器";

/// Whether `url::Url::parse` takes the text for an absolute URL.
pub uninterp spec fn url_parses(text: Seq<char>) -> bool;

/// `url::Url::parse` parses an absolute URL. The contract names its result:
/// whether the text is one.
#[verifier::external_body]
fn is_url(text: &str) -> (res: bool)
    ensures
        res == url_parses(text@),
{
    url::Url::parse(text).is_ok()
}

/// What the portal does with the address `url`, given whether it parses: it
/// opens the trimmed address, or says why not.
pub open spec fn checked_url(url: Seq<char>, parses: bool) -> Result<Seq<char>, Seq<char>> {
    if text::trimmed(url).len() == 0 {
        Err("URL 不能为空"@)
    } else if !parses {
        Err("URL 格式不正确"@)
    } else {
        Ok(text::trimmed(url))
    }
}

/// The address that the portal opens for `url`, or why it opens none.
pub open spec fn normalized_url(url: Seq<char>) -> Result<Seq<char>, Seq<char>> {
    checked_url(url, url_parses(text::trimmed(url)))
}

/// The trimmed address, if it is not empty and, as the caller found, parses.
pub fn check_portal_url(url: &str, parses: bool) -> (res: Result<String, String>)
    ensures
        match res {
            Ok(address) => checked_url(url@, parses) == Ok::<Seq<char>, Seq<char>>(address@),
            Err(message) => checked_url(url@, parses) == Err::<Seq<char>, Seq<char>>(message@),
        },
{
    let trimmed = trim(url);
    if trimmed.as_str().is_empty() {
        Err("URL 不能为空".to_owned())
    } else if !parses {
        Err("URL 格式不正确".to_owned())
    } else {
        Ok(trimmed)
    }
}

/// The address that the portal opens for `url`: trimmed, not empty, and a URL.
pub fn normalize_portal_url(url: &str) -> (res: Result<String, String>)
    ensures
        match res {
            Ok(address) => normalized_url(url@) == Ok::<Seq<char>, Seq<char>>(address@),
            Err(message) => normalized_url(url@) == Err::<Seq<char>, Seq<char>>(message@),
        },
{
    let parses = is_url(trim(url).as_str());
    check_portal_url(url, parses)
}

/// Why the portal window cannot go to an address, if it cannot.
pub open spec fn navigation_error(parses: bool, window_found: bool) -> Option<Seq<char>> {
    if !parses {
        Some("URL 格式不正确"@)
    } else if !window_found {
        Some("未找到容器窗口"@)
    } else {
        None
    }
}

/// Whether the portal window can go to an address: the address is a URL, as the
/// caller found, and the window is there.
pub fn check_navigation(parses: bool, window_found: bool) -> (res: Result<(), String>)
    ensures
        match res {
            Ok(_) => navigation_error(parses, window_found) is None,
            Err(message) => navigation_error(parses, window_found) == Some(message@),
        },
{
    if !parses {
        Err("URL 格式不正确".to_owned())
    } else if !window_found {
        Err("未找到容器窗口".to_owned())
    } else {
        Ok(())
    }
}

/// Whether the portal window can go to `url`.
pub fn check_navigation_to(url: &str, window_found: bool) -> (res: Result<(), String>)
    ensures
        match res {
            Ok(_) => navigation_error(url_parses(url@), window_found) is None,
            Err(message) => navigation_error(url_parses(url@), window_found) == Some(message@),
        },
{
    check_navigation(is_url(url), window_found)
}

/// Whether a portal window can be created for `url`.
pub fn check_creation_for(url: &str) -> (res: Result<(), String>)
    ensures
        match res {
            Ok(_) => url_parses(url@),
            Err(message) => !url_parses(url@) && message@ == "URL 格式不正确"@,
        },
{
    check_navigation(is_url(url), true)
}

/// What the portal remembers: the address it was opened with last.
pub struct PortalState {
    pub home_url: String,
}

impl Default for PortalState {
    fn default() -> (res: PortalState)
        ensures
            res.home_url@ == Seq::<char>::empty(),
    {
        PortalState { home_url: String::new() }
    }
}

/// How a portal is opened: the address, the title of the window, and whether the
/// window is to be created or is there to be navigated.
pub struct PortalRequest {
    pub url: String,
    pub title: String,
    pub create: bool,
}

/// How the portal is opened at `url`: in a new window, or in the one that is
/// open. An address that is not accepted is answered with the reason.
pub fn open_portal(url: &str, title: Option<String>, window_open: bool) -> (res: Result<PortalRequest, String>)
    ensures
        match res {
            Ok(request) => {
                &&& normalized_url(url@) == Ok::<Seq<char>, Seq<char>>(request.url@)
                &&& request.title@ == match title {
                    Some(title) => title@,
                    None => "业务浏览容器"@,
                }
                &&& request.create == !window_open
            },
            Err(message) => normalized_url(url@) == Err::<Seq<char>, Seq<char>>(message@),
        },
{
    match normalize_portal_url(url) {
        Ok(url) => {
            let title = match title {
                Some(title) => title,
                None => DEFAULT_TITLE.to_owned(),
            };
            Ok(PortalRequest { url, title, create: !window_open })
        },
        Err(message) => Err(message),
    }
}

impl PortalState {
    /// Remembers the address with which the portal was opened.
    pub fn opened(&mut self, url: &str)
        ensures
            final(self).home_url@ == url@,
    {
        self.home_url = url.to_owned();
    }

    /// Where the home button leads: nowhere before the portal was opened.
    pub open spec fn home(self) -> Option<Seq<char>> {
        if self.home_url@.len() == 0 {
            None
        } else {
            Some(self.home_url@)
        }
    }
}

/// The address the home button goes to, if any. A state that cannot be had is
/// `None`.
pub fn portal_home(state: Option<&PortalState>) -> (res: Option<String>)
    ensures
        res.deep_view() == match state {
            Some(state) => state.home(),
            None => None,
        },
{
    match state {
        Some(state) => if state.home_url.as_str().is_empty() {
            None
        } else {
            Some(state.home_url.clone())
        },
        None => None,
    }
}

/// An address that the portal accepts is accepted again as it stands, is not
/// empty and parses.
pub proof fn normalized_url_is_stable(url: Seq<char>, address: Seq<char>)
    requires
        normalized_url(url) == Ok::<Seq<char>, Seq<char>>(address),
    ensures
        normalized_url(address) == Ok::<Seq<char>, Seq<char>>(address),
        address.len() > 0,
        url_parses(address),
{
    text::trimmed_is_idempotent(url);
}

/// After the portal was opened, its home is the address it was opened with, and
/// the window can go there if it is still open.
pub proof fn home_is_the_opened_address(url: Seq<char>, address: Seq<char>, state: PortalState)
    requires
        normalized_url(url) == Ok::<Seq<char>, Seq<char>>(address),
        state.home_url@ == address,
    ensures
        state.home() == Some(text::trimmed(url)),
        navigation_error(url_parses(address), true) is None,
{
    normalized_url_is_stable(url, address);
}

/// The portal opens an address exactly if something is left of it when it is trimmed
/// and that is a URL, and it opens what is left. It refuses a blank address as empty
/// and any other that is no URL as malformed.
pub proof fn portal_opens_every_url(url: Seq<char>, address: Seq<char>, message: Seq<char>)
    ensures
        normalized_url(url) == Ok::<Seq<char>, Seq<char>>(address) <==> text::trimmed(url).len() > 0 && url_parses(
            text::trimmed(url),
        ) && address == text::trimmed(url),
        normalized_url(url) == Err::<Seq<char>, Seq<char>>(message) <==> {
            ||| text::trimmed(url).len() == 0 && message == "URL 不能为空"@
            ||| text::trimmed(url).len() > 0 && !url_parses(text::trimmed(url)) && message == "URL 格式不正确"@
        },
        forall|parses: bool| #[trigger]
            checked_url(url, parses) is Ok <==> text::trimmed(url).len() > 0 && parses,
        forall|parses: bool| #[trigger]
            checked_url(url, parses) matches Ok(opened) ==> opened == text::trimmed(url),
        forall|parses: bool|
            (#[trigger] checked_url(url, parses) == Err::<Seq<char>, Seq<char>>("URL 不能为空"@)) <==> text::trimmed(
                url,
            ).len() == 0,
{
    reveal_strlit("URL 不能为空");
    reveal_strlit("URL 格式不正确");
    assert("URL 不能为空"@[4] == '不' && "URL 格式不正确"@[4] == '格');
}

/// The window goes to every URL while it is open. A malformed address is refused
/// first, and then a window that is not there.
pub proof fn window_goes_to_every_url(parses: bool, window_found: bool)
    ensures
        navigation_error(parses, window_found) is None <==> parses && window_found,
        !parses ==> navigation_error(parses, window_found) == Some("URL 格式不正确"@),
        parses && !window_found ==> navigation_error(parses, window_found) == Some("未找到容器窗口"@),
{
}

/// The home button leads to the address that is remembered, whatever it is, and
/// nowhere exactly if none is.
pub proof fn home_is_what_is_remembered(state: PortalState, address: Seq<char>)
    ensures
        state.home() == Some(address) <==> state.home_url@ == address && address.len() > 0,
{
}

/// Opening the portal works exactly for addresses that are URLs once they are trimmed,
/// and goes to the trimmed address, in a new window exactly if none is open, under the
/// title that was given or else the default one. Other addresses are refused, blank
/// ones as empty and the rest as malformed.
pub proof fn opening_works_for_every_url(
    url: &str,
    title: Option<String>,
    window_open: bool,
    res: Result<PortalRequest, String>,
)
    requires
        call_ensures(open_portal, (url, title, window_open), res),
    ensures
        res is Ok <==> text::trimmed(url@).len() > 0 && url_parses(text::trimmed(url@)),
        res matches Ok(request) ==> {
            &&& request.url@ == text::trimmed(url@)
            &&& request.create == !window_open
            &&& title matches Some(given) ==> request.title@ == given@
            &&& title is None ==> request.title@ == "业务浏览容器"@
        },
        res matches Err(message) ==> message@ == if text::trimmed(url@).len() == 0 {
            "URL 不能为空"@
        } else {
            "URL 格式不正确"@
        },
{
    match res {
        Ok(request) => portal_opens_every_url(url@, request.url@, Seq::empty()),
        Err(message) => portal_opens_every_url(url@, Seq::empty(), message@),
    }
}

/// The address that is checked for the portal is the one that is opened.
pub proof fn checked_addresses_are_opened(url: &str, res: Result<String, String>)
    requires
        call_ensures(normalize_portal_url, (url,), res),
    ensures
        res is Ok <==> text::trimmed(url@).len() > 0 && url_parses(text::trimmed(url@)),
        res matches Ok(address) ==> address@ == text::trimmed(url@),
        res matches Err(message) ==> message@ == if text::trimmed(url@).len() == 0 {
            "URL 不能为空"@
        } else {
            "URL 格式不正确"@
        },
{
    match res {
        Ok(address) => portal_opens_every_url(url@, address@, Seq::empty()),
        Err(message) => portal_opens_every_url(url@, Seq::empty(), message@),
    }
}

/// After the portal was opened at an address, the home button leads to that address.
/// Before that, or where the state cannot be had, it leads nowhere.
pub proof fn home_leads_back(state: &mut PortalState, url: &str, done: (), res: Option<String>, none: Option<String>)
    requires
        call_ensures(PortalState::opened, (state, url), done),
        call_ensures(portal_home, (Some(&*final(state)),), res),
        call_ensures(portal_home, (None,), none),
    ensures
        url@.len() > 0 ==> res.deep_view() == Some(url@),
        url@.len() == 0 ==> res is None,
        none is None,
{
}

/// The window can go to an address exactly if that is a URL and the window is there,
/// and can be created for one exactly if that is a URL.
pub proof fn windows_go_to_every_url(
    url: &str,
    window_found: bool,
    going: Result<(), String>,
    creating: Result<(), String>,
)
    requires
        call_ensures(check_navigation_to, (url, window_found), going),
        call_ensures(check_creation_for, (url,), creating),
    ensures
        going is Ok <==> url_parses(url@) && window_found,
        going matches Err(message) ==> message@ == if url_parses(url@) {
            "未找到容器窗口"@
        } else {
            "URL 格式不正确"@
        },
        creating is Ok <==> url_parses(url@),
        creating matches Err(message) ==> message@ == "URL 格式不正确"@,
{
    window_goes_to_every_url(url_parses(url@), window_found);
}

} // verus!
