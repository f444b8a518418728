use simpleroute::traffic::{
    alarm_due, day_change, DayChange,
    get_interface_traffic, list_network_interfaces, InterfaceInfo, InterfaceRow, SpeedCalculator,
    SpeedSample, TrafficStats,
};

fn row(name: &str, if_type: u32, up: bool, rx: u64, tx: u64) -> InterfaceRow {
    InterfaceRow {
        description: name.to_string(),
        if_type,
        oper_status: if up { 1 } else { 2 },
        in_octets: rx,
        out_octets: tx,
    }
}

fn table() -> Vec<InterfaceRow> {
    vec![
        row("Software Loopback Interface 1", 24, true, 1, 1),
        row("Realtek PCIe GbE", 6, true, 100, 200),
        row("Intel(R) Wi-Fi 6E AX210", 71, false, 300, 400),
        row("Intel(R) Wi-Fi 6E AX210 #2", 71, true, 500, 600),
        row("Hyper-V Virtual Ethernet", 6, false, 700, 800),
    ]
}

fn stats(rx: u64, tx: u64) -> TrafficStats {
    TrafficStats { total_rx: rx, total_tx: tx }
}

#[test]
fn lists_every_interface_but_the_loopback() {
    let list = list_network_interfaces(&table());
    assert_eq!(
        list,
        vec![
            InterfaceInfo { friendly_name: "Realtek PCIe GbE".to_string(), is_wireless: false, is_active: true },
            InterfaceInfo { friendly_name: "Intel(R) Wi-Fi 6E AX210".to_string(), is_wireless: true, is_active: false },
            InterfaceInfo { friendly_name: "Intel(R) Wi-Fi 6E AX210 #2".to_string(), is_wireless: true, is_active: true },
            InterfaceInfo { friendly_name: "Hyper-V Virtual Ethernet".to_string(), is_wireless: false, is_active: false },
        ]
    );
    assert_eq!(list_network_interfaces(&vec![]), vec![]);
}

#[test]
fn selected_interface_wins_even_when_down() {
    let t = table();
    assert_eq!(get_interface_traffic(&t, Some("Hyper-V Virtual Ethernet")), Ok(stats(700, 800)));
    assert_eq!(get_interface_traffic(&t, Some("Software Loopback Interface 1")), Ok(stats(1, 1)));
}

#[test]
fn default_prefers_first_active_wireless() {
    let t = table();
    assert_eq!(get_interface_traffic(&t, None), Ok(stats(500, 600)));
    assert_eq!(get_interface_traffic(&t, Some("No Such Card")), Ok(stats(500, 600)));
}

#[test]
fn falls_back_to_first_active_wired() {
    let t = vec![
        row("Software Loopback Interface 1", 24, true, 1, 1),
        row("Wi-Fi", 71, false, 3, 4),
        row("Ethernet", 6, true, 10, 20),
        row("Ethernet 2", 6, true, 30, 40),
    ];
    assert_eq!(get_interface_traffic(&t, None), Ok(stats(10, 20)));
}

#[test]
fn sums_everything_when_nothing_is_up() {
    let t = vec![
        row("Software Loopback Interface 1", 24, true, 1000, 1000),
        row("Wi-Fi", 71, false, 3, 4),
        row("Ethernet", 6, false, 10, 20),
    ];
    assert_eq!(get_interface_traffic(&t, None), Ok(stats(13, 24)));
}

#[test]
fn errs_without_any_interface() {
    let t = vec![row("Software Loopback Interface 1", 24, true, 1, 1)];
    assert_eq!(get_interface_traffic(&t, None), Err("系统上未找到任何可用的网卡接口".to_string()));
    assert_eq!(get_interface_traffic(&vec![], None), Err("系统上未找到任何可用的网卡接口".to_string()));
}

const SEC: u64 = 1_000_000_000;

#[test]
fn meter_measures_growth_over_the_interval() {
    let mut c = SpeedCalculator::new(None, Ok(stats(1000, 2000)), 0);
    assert_eq!(
        c.update(None, Ok(stats(1000 + 3 * 1024 * 1024, 2500)), SEC),
        SpeedSample::Measured { rx_bytes: 3 * 1024 * 1024, tx_bytes: 500, elapsed_nanos: SEC }
    );
    assert_eq!(
        c.update(None, Ok(stats(1000 + 3 * 1024 * 1024, 2600)), 3 * SEC),
        SpeedSample::Measured { rx_bytes: 0, tx_bytes: 100, elapsed_nanos: 2 * SEC }
    );
}

#[test]
fn meter_skips_short_intervals_and_failed_readings() {
    let mut c = SpeedCalculator::new(None, Ok(stats(10, 10)), 0);
    assert_eq!(c.update(None, Ok(stats(50, 50)), 99_999_999), SpeedSample::Idle);
    assert_eq!(c.update(None, Err("x".to_string()), SEC), SpeedSample::Idle);
    assert_eq!(
        c.update(None, Ok(stats(50, 60)), 100_000_000),
        SpeedSample::Measured { rx_bytes: 40, tx_bytes: 50, elapsed_nanos: 100_000_000 }
    );
}

#[test]
fn meter_counter_going_back_gives_zero() {
    let mut c = SpeedCalculator::new(None, Ok(stats(500, 500)), 0);
    assert_eq!(
        c.update(None, Ok(stats(100, 600)), SEC),
        SpeedSample::Measured { rx_bytes: 0, tx_bytes: 100, elapsed_nanos: SEC }
    );
}

#[test]
fn meter_resets_on_interface_switch() {
    let mut c = SpeedCalculator::new(None, Ok(stats(0, 0)), 0);
    let name = Some("Ethernet".to_string());
    assert_eq!(c.update(name.clone(), Ok(stats(9_000_000, 9_000_000)), SEC), SpeedSample::Idle);
    assert_eq!(
        c.update(name.clone(), Ok(stats(9_000_100, 9_000_200)), 2 * SEC),
        SpeedSample::Measured { rx_bytes: 100, tx_bytes: 200, elapsed_nanos: SEC }
    );
    assert_eq!(c.update(None, Ok(stats(1, 1)), 3 * SEC), SpeedSample::Idle);
}

#[test]
fn meter_started_without_reading_counts_from_zero() {
    let mut c = SpeedCalculator::new(Some("Wi-Fi".to_string()), Err("no table".to_string()), 5);
    assert_eq!(
        c.update(Some("Wi-Fi".to_string()), Ok(stats(70, 80)), 5 + SEC),
        SpeedSample::Measured { rx_bytes: 70, tx_bytes: 80, elapsed_nanos: SEC }
    );
}

#[test]
fn meter_clock_going_back_is_a_short_interval() {
    let mut c = SpeedCalculator::new(None, Ok(stats(0, 0)), 10 * SEC);
    assert_eq!(c.update(None, Ok(stats(5, 5)), 1), SpeedSample::Idle);
}

#[test]
fn unknown_name_falls_back_like_no_name() {
    let t = table();
    assert_eq!(get_interface_traffic(&t, Some("Missing")), get_interface_traffic(&t, None));
    let t = vec![row("Ethernet", 6, false, 3, 4)];
    assert_eq!(get_interface_traffic(&t, Some("Missing")), get_interface_traffic(&t, None));
}

#[test]
fn day_change_of_traffic_totals() {
    let day = |recorded: &str, today: &str| day_change(&recorded.to_string(), &today.to_string());
    assert_eq!(day("", "2024-05-01"), DayChange::Start);
    assert_eq!(day("2024-05-01", "2024-05-01"), DayChange::Same);
    assert_eq!(day("2024-05-01", "2024-05-02"), DayChange::NewDay);
}

#[test]
fn alarm_quiet_time() {
    assert!(alarm_due(None, 0));
    assert!(!alarm_due(Some(5 * SEC), 35 * SEC));
    assert!(alarm_due(Some(5 * SEC), 35 * SEC + 1));
    assert!(!alarm_due(Some(40 * SEC), 10 * SEC));
}
