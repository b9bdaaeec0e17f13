use tjipe_showcase::portal::{
    check_creation_for, check_navigation, check_navigation_to, check_portal_url, normalize_portal_url, open_portal,
    portal_home, PortalState, DEFAULT_TITLE, PORTAL_LABEL,
};

#[test]
fn addresses_are_trimmed_and_checked() {
    assert_eq!(normalize_portal_url("  https://example.com/a b "), Ok("https://example.com/a b".to_string()));
    assert_eq!(normalize_portal_url(" \t"), Err("URL 不能为空".to_string()));
    assert_eq!(normalize_portal_url("example.com"), Err("URL 格式不正确".to_string()));
    assert_eq!(normalize_portal_url("http://"), Err("URL 格式不正确".to_string()));
    let address = normalize_portal_url(" mailto:a@b ").unwrap();
    assert_eq!(normalize_portal_url(&address), Ok(address));
}

#[test]
fn checks_follow_the_parser() {
    assert_eq!(check_portal_url(" x ", true), Ok("x".to_string()));
    assert_eq!(check_portal_url(" x ", false), Err("URL 格式不正确".to_string()));
    assert_eq!(check_portal_url("", false), Err("URL 不能为空".to_string()));
}

#[test]
fn navigation_needs_an_address_and_a_window() {
    assert_eq!(check_navigation_to("https://a.b", true), Ok(()));
    assert_eq!(check_navigation_to("https://a.b", false), Err("未找到容器窗口".to_string()));
    assert_eq!(check_navigation_to("a.b", false), Err("URL 格式不正确".to_string()));
    assert_eq!(check_navigation(false, true), Err("URL 格式不正确".to_string()));
    assert_eq!(check_creation_for("https://a.b"), Ok(()));
    assert_eq!(check_creation_for("::"), Err("URL 格式不正确".to_string()));
}

#[test]
fn portal_is_opened() {
    let request = open_portal(" https://a.b ", None, false).ok().unwrap();
    assert_eq!(request.url, "https://a.b");
    assert_eq!(request.title, "业务浏览容器");
    assert!(request.create);
    let request = open_portal("https://a.b", Some("t".to_string()), true).ok().unwrap();
    assert_eq!(request.title, "t");
    assert!(!request.create);
    assert_eq!(open_portal("x", None, true).err(), Some("URL 格式不正确".to_string()));
    assert_eq!((PORTAL_LABEL, DEFAULT_TITLE), ("portal", "业务浏览容器"));
}

#[test]
fn home_is_the_last_opened_address() {
    let mut state = PortalState::default();
    assert_eq!(portal_home(Some(&state)), None);
    assert_eq!(portal_home(None), None);
    state.opened("https://a.b");
    state.opened("https://c.d");
    assert_eq!(portal_home(Some(&state)), Some("https://c.d".to_string()));
}
