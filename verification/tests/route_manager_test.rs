use simpleroute::ipv4::{parse_ipv4_str, Ipv4};
use simpleroute::route_manager::{
    add_route, check_route_active, command_result, delete_route, scan_existing_routes,
    validate_route_params, verification_status,
};
use simpleroute::config::{RouteItem, RouteStatus};

fn route(target: &str, mask: &str, gateway: &str) -> RouteItem {
    RouteItem {
        id: "id".to_string(),
        name: "n".to_string(),
        target: target.to_string(),
        mask: mask.to_string(),
        gateway: gateway.to_string(),
        enabled: true,
        status: RouteStatus::Inactive,
    }
}

#[test]
fn parses_dotted_decimal_addresses() {
    assert_eq!(parse_ipv4_str("10.39.165.114"), Some(Ipv4 { a: 10, b: 39, c: 165, d: 114 }));
    assert_eq!(parse_ipv4_str("0.0.0.0"), Some(Ipv4 { a: 0, b: 0, c: 0, d: 0 }));
    assert_eq!(parse_ipv4_str("255.255.255.255"), Some(Ipv4 { a: 255, b: 255, c: 255, d: 255 }));
}

#[test]
fn rejects_malformed_addresses() {
    for bad in [
        "", "1.2.3", "1.2.3.4.5", "256.1.1.1", "01.2.3.4", "1.2.3.04", "1..2.3", "1.2.3.",
        ".1.2.3", "+1.2.3.4", "1.2.3.4 ", " 1.2.3.4", "1.2.3.4;calc", "1234.1.1.1", "a.b.c.d",
        "１.2.3.4",
    ] {
        assert_eq!(parse_ipv4_str(bad), None, "{:?}", bad);
    }
}

#[test]
fn validates_route_parameters() {
    assert_eq!(validate_route_params("3.3.3.3", "255.255.255.255", "10.39.165.114"), Ok(()));
    assert_eq!(validate_route_params(" 3.3.3.3\t", "255.0.0.0 ", "\n10.0.0.1"), Ok(()));
    assert_eq!(
        validate_route_params("3.3.3", "255.255.255.255", "10.0.0.1"),
        Err("目标 IP 地址格式不正确".to_string())
    );
    assert_eq!(
        validate_route_params("3.3.3.3", "255.255.255.256", "10.0.0.1"),
        Err("子网掩码格式不正确".to_string())
    );
    assert_eq!(
        validate_route_params("3.3.3.3", "255.255.255.0", "x"),
        Err("网关 IP 地址格式不正确".to_string())
    );
    assert_eq!(
        validate_route_params("bad", "bad", "bad"),
        Err("目标 IP 地址格式不正确".to_string())
    );
}

#[test]
fn add_route_hands_trimmed_arguments_to_the_command() {
    let mut seen: Option<Vec<String>> = None;
    let r = route(" 3.3.3.3 ", "255.255.255.255", "10.39.165.114\r\n");
    let res = add_route(&r, |args| {
        seen = Some(args);
        Ok("OK!".to_string())
    });
    assert_eq!(res, Ok(()));
    assert_eq!(
        seen,
        Some(vec![
            "add".to_string(),
            "3.3.3.3".to_string(),
            "mask".to_string(),
            "255.255.255.255".to_string(),
            "10.39.165.114".to_string()
        ])
    );
}

#[test]
fn add_route_reports_command_failure() {
    let r = route("3.3.3.3", "255.255.255.255", "10.0.0.1");
    let res = add_route(&r, |_| Err("boom".to_string()));
    assert_eq!(res, Err("添加路由失败: boom".to_string()));
}

#[test]
fn add_route_refuses_injection_without_running() {
    let mut ran = false;
    let r = route("3.3.3.3 & calc", "255.255.255.255", "10.0.0.1");
    let res = add_route(&r, |_| {
        ran = true;
        Ok(String::new())
    });
    assert_eq!(res, Err("目标 IP 地址格式不正确".to_string()));
    assert!(!ran);
    let r = route("3.3.3.3", "255.255.255.255", "10.0.0.1|x");
    let res = add_route(&r, |_| Ok(String::new()));
    assert_eq!(res, Err("网关 IP 地址格式不正确".to_string()));
}

#[test]
fn delete_route_checks_and_runs() {
    let mut seen: Option<Vec<String>> = None;
    let res = delete_route(" 8.8.8.8 ", |args| {
        seen = Some(args);
        Ok(String::new())
    });
    assert_eq!(res, Ok(()));
    assert_eq!(seen, Some(vec!["delete".to_string(), "8.8.8.8".to_string()]));
    assert_eq!(
        delete_route("8.8.8", |_| Ok(String::new())),
        Err("无效的目标 IP 地址，删除终止".to_string())
    );
    assert_eq!(
        delete_route("8.8.8.8", |_| Err("denied".to_string())),
        Err("删除路由失败: denied".to_string())
    );
}

#[test]
fn command_result_picks_the_failure_text() {
    assert_eq!(command_result(true, "out".to_string(), "err".to_string()), Ok("out".to_string()));
    assert_eq!(command_result(false, "out".to_string(), "err".to_string()), Err("err".to_string()));
    assert_eq!(command_result(false, "out".to_string(), "  \r\n".to_string()), Err("out".to_string()));
    assert_eq!(
        command_result(false, " ".to_string(), "".to_string()),
        Err("未知命令执行错误".to_string())
    );
}

#[test]
fn verification_status_by_listing() {
    assert_eq!(verification_status(true), RouteStatus::Active);
    assert_eq!(
        verification_status(false),
        RouteStatus::Failed("验证失败: 活跃路由表中未找到匹配条目".to_string())
    );
}

const ROUTE_PRINT: &str = "===========================================================================\r
Interface List\r
 12...00 15 5d 01 02 03 ......Intel(R) Wi-Fi 6E AX210\r
  1...........................Software Loopback Interface 1\r
===========================================================================\r
\r
IPv4 Route Table\r
===========================================================================\r
Active Routes:\r
Network Destination        Netmask          Gateway       Interface  Metric\r
          0.0.0.0          0.0.0.0      192.168.1.1    192.168.1.23     35\r
          3.3.3.3  255.255.255.255    10.39.165.114    192.168.1.23     36\r
         10.0.0.0        255.0.0.0      192.168.1.1    192.168.1.23     36\r
        127.0.0.0        255.0.0.0         On-link         127.0.0.1    331\r
        127.0.0.1  255.255.255.255         On-link         127.0.0.1    331\r
      192.168.1.0    255.255.255.0         On-link      192.168.1.23    291\r
     192.168.1.23  255.255.255.255     192.168.1.23    192.168.1.23    291\r
      172.16.0.0      255.240.0.0        127.0.0.1       127.0.0.1      5\r
        224.0.0.0        240.0.0.0         On-link         127.0.0.1    331\r
        239.1.1.1  255.255.255.255      192.168.1.1    192.168.1.23     20\r
  255.255.255.255  255.255.255.255         On-link         127.0.0.1    331\r
  255.255.255.255  255.255.255.255      192.168.1.1    192.168.1.23    331\r
===========================================================================\r
Persistent Routes:\r
  Network Address          Netmask  Gateway Address  Metric\r
          3.3.3.3  255.255.255.255    10.39.165.114       1\r
         20.0.0.0        255.0.0.0      192.168.1.1 Default\r
===========================================================================\r
";

#[test]
fn check_route_active_reads_the_listing() {
    assert!(check_route_active(ROUTE_PRINT, "3.3.3.3", "255.255.255.255", "10.39.165.114"));
    assert!(check_route_active(ROUTE_PRINT, " 10.0.0.0 ", "255.0.0.0", "192.168.1.1\n"));
    assert!(!check_route_active(ROUTE_PRINT, "3.3.3.3", "255.255.255.0", "10.39.165.114"));
    assert!(!check_route_active(ROUTE_PRINT, "8.8.8.8", "255.255.255.255", "10.39.165.114"));
    assert!(!check_route_active("", "3.3.3.3", "255.255.255.255", "10.39.165.114"));
    // A row needs at least four fields.
    assert!(!check_route_active("3.3.3.3 255.255.255.255 1.1.1.1\n", "3.3.3.3", "255.255.255.255", "1.1.1.1"));
    assert!(check_route_active("3.3.3.3 255.255.255.255 1.1.1.1 x", "3.3.3.3", "255.255.255.255", "1.1.1.1"));
}

fn triple(t: &str, m: &str, g: &str) -> (String, String, String) {
    (t.to_string(), m.to_string(), g.to_string())
}

#[test]
fn scan_keeps_only_manual_static_routes() {
    let found = scan_existing_routes(ROUTE_PRINT);
    assert_eq!(
        found,
        vec![
            triple("3.3.3.3", "255.255.255.255", "10.39.165.114"),
            triple("10.0.0.0", "255.0.0.0", "192.168.1.1"),
            triple("20.0.0.0", "255.0.0.0", "192.168.1.1"),
        ]
    );
}

#[test]
fn scan_filters_direct_routes_only_with_an_interface_column() {
    let found = scan_existing_routes("5.5.5.0 255.255.255.0 192.168.1.23 192.168.1.23\n");
    assert_eq!(found, vec![triple("5.5.5.0", "255.255.255.0", "192.168.1.23")]);
    let found = scan_existing_routes("5.5.5.0 255.255.255.0 192.168.1.23 192.168.1.23 5\n");
    assert_eq!(found, vec![]);
    let found = scan_existing_routes("5.5.5.0 255.255.255.0 192.168.1.23 7\n");
    assert_eq!(found, vec![triple("5.5.5.0", "255.255.255.0", "192.168.1.23")]);
}

#[test]
fn scan_of_empty_listing_is_empty() {
    assert_eq!(scan_existing_routes(""), vec![]);
    assert_eq!(scan_existing_routes("\r\n\r\n"), vec![]);
}

#[test]
fn scanned_routes_are_reported_active() {
    for (t, m, g) in scan_existing_routes(ROUTE_PRINT) {
        assert!(check_route_active(ROUTE_PRINT, &t, &m, &g));
    }
}
