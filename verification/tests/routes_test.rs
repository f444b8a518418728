use simpleroute::config::{RouteItem, RouteStatus};
use simpleroute::locale::Language;
use simpleroute::routes::{
    apply_route_events, deletions_fit, health_step, mark_enabled_verifying, merge_scanned_routes,
    new_route_from_form, restore_routes_on_startup, route_id, route_needs_probe, save_due,
    set_status_for_target, HealthAction, RouteCommand,
};

fn item(target: &str, enabled: bool, status: RouteStatus) -> RouteItem {
    RouteItem {
        id: format!("id-{}", target),
        name: format!("name-{}", target),
        target: target.to_string(),
        mask: "255.255.255.255".to_string(),
        gateway: "10.0.0.1".to_string(),
        enabled,
        status,
    }
}

fn triple(t: &str, m: &str, g: &str) -> (String, String, String) {
    (t.to_string(), m.to_string(), g.to_string())
}

#[test]
fn route_ids_join_target_and_time() {
    assert_eq!(route_id("3.3.3.3", 1700000000123), "3-3-3-3-1700000000123");
    assert_eq!(route_id("10.0.0.0", 0), "10-0-0-0-0");
    assert_eq!(route_id("1.2.3.4", -42), "1-2-3-4--42");
    assert_eq!(route_id("1.2.3.4", i64::MIN), "1-2-3-4--9223372036854775808");
}

#[test]
fn merge_appends_unknown_routes_enabled_and_active() {
    let mut routes = vec![item("3.3.3.3", false, RouteStatus::Inactive)];
    let found = vec![
        triple("3.3.3.3", "255.255.255.255", "10.0.0.1"),
        triple("20.0.0.0", "255.0.0.0", "192.168.1.1"),
    ];
    assert!(merge_scanned_routes(&mut routes, &found, Language::Zh, 77));
    assert_eq!(routes.len(), 2);
    assert_eq!(routes[0].target, "3.3.3.3");
    assert!(!routes[0].enabled);
    let r = &routes[1];
    assert_eq!(r.id, "20-0-0-0-77");
    assert_eq!(r.name, "已同步-20.0.0.0");
    assert_eq!((r.target.as_str(), r.mask.as_str(), r.gateway.as_str()), ("20.0.0.0", "255.0.0.0", "192.168.1.1"));
    assert!(r.enabled);
    assert_eq!(r.status, RouteStatus::Active);
}

#[test]
fn merge_twice_changes_nothing() {
    let mut routes = vec![];
    let found = vec![triple("20.0.0.0", "255.0.0.0", "192.168.1.1")];
    assert!(merge_scanned_routes(&mut routes, &found, Language::En, 5));
    assert_eq!(routes[0].name, "Synced-20.0.0.0");
    assert!(!merge_scanned_routes(&mut routes, &found, Language::En, 6));
    assert_eq!(routes.len(), 1);
    assert_eq!(routes[0].id, "20-0-0-0-5");
}

#[test]
fn merge_tells_apart_masks_and_gateways() {
    let mut routes = vec![item("3.3.3.3", true, RouteStatus::Active)];
    let found = vec![triple("3.3.3.3", "255.255.255.0", "10.0.0.1"), triple("3.3.3.3", "255.255.255.255", "10.0.0.2")];
    assert!(merge_scanned_routes(&mut routes, &found, Language::En, 1));
    assert_eq!(routes.len(), 3);
}

#[test]
fn startup_restores_enabled_routes() {
    let mut routes = vec![
        item("1.1.1.1", true, RouteStatus::Active),
        item("2.2.2.2", false, RouteStatus::Active),
        item("3.3.3.3", true, RouteStatus::Failed("x".to_string())),
    ];
    let to_install = restore_routes_on_startup(&mut routes);
    assert_eq!(routes[0].status, RouteStatus::Verifying);
    assert_eq!(routes[1].status, RouteStatus::Inactive);
    assert_eq!(routes[2].status, RouteStatus::Verifying);
    let targets: Vec<&str> = to_install.iter().map(|r| r.target.as_str()).collect();
    assert_eq!(targets, vec!["1.1.1.1", "3.3.3.3"]);
    assert!(to_install.iter().all(|r| r.status == RouteStatus::Verifying));
}

#[test]
fn recheck_marks_enabled_routes() {
    let mut routes = vec![
        item("1.1.1.1", true, RouteStatus::Active),
        item("2.2.2.2", false, RouteStatus::Inactive),
        item("3.3.3.3", true, RouteStatus::Failed("x".to_string())),
    ];
    mark_enabled_verifying(&mut routes);
    assert_eq!(routes[0].status, RouteStatus::Verifying);
    assert_eq!(routes[1].status, RouteStatus::Inactive);
    assert_eq!(routes[2].status, RouteStatus::Verifying);
}

fn act(changed: bool, reinstall: bool, notify_rebuilt: bool) -> HealthAction {
    HealthAction { changed, reinstall, notify_rebuilt }
}

#[test]
fn guard_transitions() {
    let mut r = item("1.1.1.1", true, RouteStatus::Verifying);
    assert!(route_needs_probe(&r));
    assert_eq!(health_step(&mut r, true, false), act(true, false, true));
    assert_eq!(r.status, RouteStatus::Active);

    let mut r = item("1.1.1.1", true, RouteStatus::Verifying);
    assert_eq!(health_step(&mut r, true, true), act(true, false, false));
    assert_eq!(r.status, RouteStatus::Active);

    let mut r = item("1.1.1.1", true, RouteStatus::Verifying);
    assert_eq!(health_step(&mut r, false, false), act(false, false, false));
    assert_eq!(r.status, RouteStatus::Verifying);

    let mut r = item("1.1.1.1", true, RouteStatus::Inactive);
    assert_eq!(health_step(&mut r, false, false), act(false, true, false));
    assert_eq!(r.status, RouteStatus::Verifying);

    let mut r = item("1.1.1.1", true, RouteStatus::Inactive);
    assert_eq!(health_step(&mut r, true, false), act(true, false, false));
    assert_eq!(r.status, RouteStatus::Active);

    let mut r = item("1.1.1.1", true, RouteStatus::Active);
    assert_eq!(health_step(&mut r, false, false), act(true, true, false));
    assert_eq!(r.status, RouteStatus::Verifying);

    let mut r = item("1.1.1.1", true, RouteStatus::Active);
    assert_eq!(health_step(&mut r, true, false), act(false, false, false));
    assert_eq!(r.status, RouteStatus::Active);

    let mut r = item("1.1.1.1", true, RouteStatus::Failed("e".to_string()));
    assert!(!route_needs_probe(&r));
    assert_eq!(health_step(&mut r, false, false), act(false, false, false));
    assert_eq!(r.status, RouteStatus::Failed("e".to_string()));

    let mut r = item("1.1.1.1", false, RouteStatus::Active);
    assert!(!route_needs_probe(&r));
    assert_eq!(health_step(&mut r, true, false), act(false, false, false));
    assert_eq!(r.status, RouteStatus::Inactive);
}

#[test]
fn events_delete_then_toggle() {
    let mut routes = vec![
        item("1.1.1.1", true, RouteStatus::Active),
        item("2.2.2.2", false, RouteStatus::Inactive),
        item("3.3.3.3", true, RouteStatus::Active),
        item("4.4.4.4", false, RouteStatus::Inactive),
    ];
    let commands = apply_route_events(&mut routes, &vec![0, 1], &vec![(1, false), (0, true), (9, true)]);
    let targets: Vec<&str> = routes.iter().map(|r| r.target.as_str()).collect();
    assert_eq!(targets, vec!["3.3.3.3", "4.4.4.4"]);
    assert!(routes[0].enabled && routes[0].status == RouteStatus::Verifying);
    assert!(!routes[1].enabled && routes[1].status == RouteStatus::Inactive);
    assert_eq!(commands.len(), 3);
    assert!(matches!(&commands[0], RouteCommand::Delete(t) if t == "1.1.1.1"));
    assert!(matches!(&commands[1], RouteCommand::Delete(t) if t == "4.4.4.4"));
    assert!(matches!(&commands[2], RouteCommand::Add(r) if r.target == "3.3.3.3" && r.enabled));
}

#[test]
fn events_without_clicks_change_nothing() {
    let mut routes = vec![item("1.1.1.1", true, RouteStatus::Active)];
    let commands = apply_route_events(&mut routes, &vec![], &vec![]);
    assert!(commands.is_empty());
    assert_eq!(routes.len(), 1);
    assert_eq!(routes[0].status, RouteStatus::Active);
}

#[test]
fn status_goes_to_first_route_with_target() {
    let mut routes = vec![
        item("1.1.1.1", true, RouteStatus::Verifying),
        item("2.2.2.2", true, RouteStatus::Verifying),
        item("2.2.2.2", true, RouteStatus::Verifying),
    ];
    set_status_for_target(&mut routes, &"2.2.2.2".to_string(), RouteStatus::Failed("e".to_string()));
    assert_eq!(routes[0].status, RouteStatus::Verifying);
    assert_eq!(routes[1].status, RouteStatus::Failed("e".to_string()));
    assert_eq!(routes[2].status, RouteStatus::Verifying);
    set_status_for_target(&mut routes, &"9.9.9.9".to_string(), RouteStatus::Active);
    assert_eq!(routes[0].status, RouteStatus::Verifying);
}

#[test]
fn form_builds_a_disabled_route() {
    let routes = vec![item("1.1.1.1", true, RouteStatus::Active)];
    let r = new_route_from_form(Language::Zh, " 3.3.3.3 ", "255.255.255.255", "10.39.165.114", "  ", &routes, 1234).unwrap();
    assert_eq!(r.id, "3-3-3-3-1234");
    assert_eq!(r.name, "路由-3.3.3.3");
    assert_eq!(r.target, "3.3.3.3");
    assert!(!r.enabled);
    assert_eq!(r.status, RouteStatus::Inactive);
    let r = new_route_from_form(Language::En, "3.3.3.3", "255.255.255.255", "10.39.165.114", " Test Net ", &routes, 1).unwrap();
    assert_eq!(r.name, "Test Net");
    let r = new_route_from_form(Language::En, "3.3.3.3", "255.255.255.255", "10.39.165.114", "", &routes, 1).unwrap();
    assert_eq!(r.name, "Route-3.3.3.3");
}

#[test]
fn form_errors() {
    let routes = vec![item("1.1.1.1", true, RouteStatus::Active)];
    let e = |lang, t: &str, m: &str, g: &str| new_route_from_form(lang, t, m, g, "", &routes, 0).unwrap_err();
    assert_eq!(e(Language::Zh, "", "255.0.0.0", "1.1.1.1"), "必填项 (*) 不能为空");
    assert_eq!(e(Language::En, "1.1.1.2", " ", "1.1.1.1"), "Required fields (*) cannot be empty");
    assert_eq!(e(Language::Zh, "1.1.1", "255.0.0.0", "1.1.1.1"), "目标 IP 地址格式不合法");
    assert_eq!(e(Language::En, "1.1.1", "255.0.0.0", "1.1.1.1"), "Invalid Target IP format");
    assert_eq!(e(Language::Zh, "1.1.1.2", "255.0.0", "1.1.1.1"), "子网掩码格式不合法");
    assert_eq!(e(Language::En, "1.1.1.2", "255.0.0", "1.1.1.1"), "Invalid Netmask format");
    assert_eq!(e(Language::Zh, "1.1.1.2", "255.0.0.0", "gw"), "网关地址格式不合法");
    assert_eq!(e(Language::En, "1.1.1.2", "255.0.0.0", "gw"), "Invalid Gateway IP format");
    assert_eq!(e(Language::Zh, "1.1.1.1", "255.0.0.0", "1.1.1.9"), "目标 IP 1.1.1.1 已经存在配置列表中");
    assert_eq!(e(Language::En, " 1.1.1.1", "255.0.0.0", "1.1.1.9"), "Target IP 1.1.1.1 already exists in the configurations");
}

#[test]
fn saves_on_change_or_every_ten_rounds() {
    let mut rounds = 0u32;
    for _ in 0..9 {
        assert!(!save_due(&mut rounds, false));
    }
    assert_eq!(rounds, 9);
    assert!(save_due(&mut rounds, false));
    assert_eq!(rounds, 0);
    assert!(save_due(&mut rounds, true));
    assert_eq!(rounds, 0);
}

#[test]
fn deletion_bounds_are_checked() {
    assert!(deletions_fit(4, &vec![0, 1]));
    assert!(deletions_fit(2, &vec![0, 1]));
    assert!(!deletions_fit(2, &vec![1, 1]));
    assert!(!deletions_fit(1, &vec![1]));
    assert!(deletions_fit(0, &vec![]));
}

#[test]
fn events_keep_targets_distinct() {
    let mut routes = vec![
        item("1.1.1.1", true, RouteStatus::Active),
        item("2.2.2.2", false, RouteStatus::Inactive),
        item("3.3.3.3", true, RouteStatus::Active),
    ];
    let _ = apply_route_events(&mut routes, &vec![1], &vec![(0, false), (1, true)]);
    let added = new_route_from_form(Language::En, "2.2.2.2", "255.255.255.255", "10.0.0.1", "", &routes, 3).unwrap();
    routes.push(added);
    let mut targets: Vec<&str> = routes.iter().map(|r| r.target.as_str()).collect();
    targets.sort();
    targets.dedup();
    assert_eq!(targets.len(), routes.len());
    assert!(new_route_from_form(Language::En, "3.3.3.3", "255.255.255.255", "10.0.0.1", "", &routes, 4).is_err());
}
