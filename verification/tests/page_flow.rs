use iron_coder::page::{initial_page, next_page, Page, PageEvent};

#[test]
fn starts_at_login() {
    assert_eq!(initial_page(), Page::Login);
}

#[test]
fn login_register_cycle() {
    let p = initial_page();
    let p = next_page(p, PageEvent::OpenRegister);
    assert_eq!(p, Page::Register);
    let p = next_page(p, PageEvent::RegisterSucceeded);
    assert_eq!(p, Page::Login);
}

#[test]
fn failed_registration_stays_on_register() {
    let p = next_page(Page::Register, PageEvent::RegisterFailed);
    assert_eq!(p, Page::Register);
}

#[test]
fn login_outcomes() {
    assert_eq!(next_page(Page::Login, PageEvent::LoginSucceeded), Page::Home);
    assert_eq!(next_page(Page::Login, PageEvent::LoginFailed), Page::Login);
    assert_eq!(next_page(Page::Login, PageEvent::ContinueAsGuest), Page::Home);
}

#[test]
fn home_about_cycle() {
    let p = next_page(Page::Home, PageEvent::OpenAbout);
    assert_eq!(p, Page::About);
    let p = next_page(p, PageEvent::BackToHome);
    assert_eq!(p, Page::Home);
}

#[test]
fn back_to_login_from_everywhere() {
    assert_eq!(next_page(Page::Home, PageEvent::BackToLogin), Page::Login);
    assert_eq!(next_page(Page::About, PageEvent::BackToLogin), Page::Login);
    assert_eq!(next_page(Page::Register, PageEvent::BackToLogin), Page::Login);
    assert_eq!(next_page(Page::Login, PageEvent::BackToLogin), Page::Login);
}

#[test]
fn inapplicable_events_keep_page() {
    assert_eq!(next_page(Page::Home, PageEvent::OpenRegister), Page::Home);
    assert_eq!(next_page(Page::About, PageEvent::LoginSucceeded), Page::About);
    assert_eq!(next_page(Page::Login, PageEvent::BackToHome), Page::Login);
}
