//! The page state machine of the shell: which screen is shown next in
//! response to a user action. The shell performs the drawing and hands the
//! resulting event here; the transition itself is verified.

use vstd::prelude::*;

verus! {

/// The screen currently shown.
#[derive(Clone, Copy, PartialEq, Eq, Structural, Debug)]
pub enum Page {
    Login,
    Register,
    Home,
    About,
}

/// A user action that may change the page. Events that report the outcome of
/// a store operation (`LoginSucceeded`, `RegisterFailed`, ...) are produced by
/// the caller from the store's result.
#[derive(Clone, Copy, PartialEq, Eq, Structural, Debug)]
pub enum PageEvent {
    /// "Register" chosen on the login screen.
    OpenRegister,
    /// Login credentials were submitted and matched a record.
    LoginSucceeded,
    /// Login credentials were submitted and matched nothing.
    LoginFailed,
    /// "Continue as a guest" chosen on the login screen.
    ContinueAsGuest,
    /// An account was created on the register screen.
    RegisterSucceeded,
    /// Account creation was rejected or failed.
    RegisterFailed,
    /// "Back to login" chosen (available from every screen).
    BackToLogin,
    /// "About" chosen on the home screen.
    OpenAbout,
    /// "Back to home" chosen on the about screen.
    BackToHome,
}

/// The page shown after `event` arrives while `page` is shown. An event that
/// has no meaning on the current page leaves it unchanged.
pub open spec fn page_after(page: Page, event: PageEvent) -> Page {
    match (page, event) {
        (_, PageEvent::BackToLogin) => Page::Login,
        (Page::Login, PageEvent::OpenRegister) => Page::Register,
        (Page::Login, PageEvent::LoginSucceeded) => Page::Home,
        (Page::Login, PageEvent::ContinueAsGuest) => Page::Home,
        (Page::Register, PageEvent::RegisterSucceeded) => Page::Login,
        (Page::Home, PageEvent::OpenAbout) => Page::About,
        (Page::About, PageEvent::BackToHome) => Page::Home,
        _ => page,
    }
}

/// The page first shown when the shell starts.
pub fn initial_page() -> (r: Page)
    ensures
        r == Page::Login,
{
    Page::Login
}

/// Advance the page state machine by one event.
pub fn next_page(page: Page, event: PageEvent) -> (r: Page)
    ensures
        r == page_after(page, event),
{
    match (page, event) {
        (_, PageEvent::BackToLogin) => Page::Login,
        (Page::Login, PageEvent::OpenRegister) => Page::Register,
        (Page::Login, PageEvent::LoginSucceeded) => Page::Home,
        (Page::Login, PageEvent::ContinueAsGuest) => Page::Home,
        (Page::Register, PageEvent::RegisterSucceeded) => Page::Login,
        (Page::Home, PageEvent::OpenAbout) => Page::About,
        (Page::About, PageEvent::BackToHome) => Page::Home,
        _ => page,
    }
}

} // verus!
