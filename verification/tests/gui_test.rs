use simpleroute::config::{RouteItem, RouteStatus};
use simpleroute::gui::{
    failure_reason_text, interface_menu_label, interface_selection_label,
    interface_switched_message, route_detail_text, route_rebuilt_message, truncate_str,
};
use simpleroute::locale::Language;
use simpleroute::traffic::InterfaceInfo;

fn info(name: &str, wireless: bool, active: bool) -> InterfaceInfo {
    InterfaceInfo { friendly_name: name.to_string(), is_wireless: wireless, is_active: active }
}

#[test]
fn language_texts() {
    assert_eq!(Language::Zh.t("中", "en"), "中");
    assert_eq!(Language::En.t("中", "en"), "en");
    assert_eq!(Language::detect(0x0804), Language::Zh);
    assert_eq!(Language::detect(0x0404), Language::Zh);
    assert_eq!(Language::detect(0x0409), Language::En);
    assert_eq!(Language::detect(0x0411), Language::En);
}

#[test]
fn truncation() {
    assert_eq!(truncate_str("short", 16), "short");
    assert_eq!(truncate_str("exactly sixteen!", 16), "exactly sixteen!");
    assert_eq!(truncate_str("Intel(R) Wi-Fi 6E AX210", 16), "Intel(R) Wi-Fi 6...");
    assert_eq!(truncate_str("📶 自动(无线): 网卡", 5), "📶 自动(...");
    assert_eq!(truncate_str("", 0), "");
    assert_eq!(truncate_str("a", 0), "...");
}

#[test]
fn selection_label_prefers_choice_then_wireless_then_active() {
    let list = vec![info("Ethernet", false, true), info("Wi-Fi", true, false), info("Wi-Fi 2", true, true)];
    assert_eq!(interface_selection_label(Language::En, &Some("Mine".to_string()), &list), "Mine");
    assert_eq!(interface_selection_label(Language::Zh, &None, &list), "📶 自动(无线): Wi-Fi 2");
    assert_eq!(interface_selection_label(Language::En, &None, &list), "📶 Auto(Wifi): Wi-Fi 2");
    let list = vec![info("Wi-Fi", true, false), info("Ethernet", false, true)];
    assert_eq!(interface_selection_label(Language::Zh, &None, &list), "🔌 自动(有线): Ethernet");
    assert_eq!(interface_selection_label(Language::En, &None, &list), "🔌 Auto(Wired): Ethernet");
    let list = vec![info("Wi-Fi", true, false)];
    assert_eq!(interface_selection_label(Language::Zh, &None, &list), "🔍 自动选择");
    assert_eq!(interface_selection_label(Language::En, &None, &vec![]), "🔍 Auto Select");
}

#[test]
fn menu_labels() {
    assert_eq!(interface_menu_label(Language::Zh, &info("Wi-Fi", true, true)), "📶 Wi-Fi (已连接)");
    assert_eq!(interface_menu_label(Language::En, &info("Ethernet", false, false)), "🔌 Ethernet (Disconnected)");
}

#[test]
fn detail_and_messages() {
    let r = RouteItem {
        id: "i".to_string(),
        name: "office".to_string(),
        target: "3.3.3.3".to_string(),
        mask: "255.255.255.255".to_string(),
        gateway: "10.39.165.114".to_string(),
        enabled: true,
        status: RouteStatus::Active,
    };
    assert_eq!(route_detail_text(Language::Zh, &r), "目标: 3.3.3.3  掩码: 255.255.255.255  网关: 10.39.165.114");
    assert_eq!(route_detail_text(Language::En, &r), "Target: 3.3.3.3  Mask: 255.255.255.255  Gateway: 10.39.165.114");
    assert_eq!(route_rebuilt_message(Language::Zh, &r.name), "静态路由 [office] 意外丢失已在 1 秒内自动静默重建并生效！");
    assert_eq!(route_rebuilt_message(Language::En, &r.name), "Static route [office] was lost and has been rebuilt silently within 1 second!");
    assert_eq!(interface_switched_message(Language::Zh, &"Wi-Fi".to_string()), "已成功切换监听网卡为：Wi-Fi");
    assert_eq!(interface_switched_message(Language::En, &"Wi-Fi".to_string()), "Successfully switched interface to: Wi-Fi");
}

#[test]
fn failure_reasons() {
    let v = "验证失败: 活跃路由表中未找到匹配条目";
    assert_eq!(failure_reason_text(Language::Zh, v), "详细原因: 验证失败: 活跃路由表中未找到匹配条目");
    assert_eq!(failure_reason_text(Language::En, v), "Reason: Verification failed: No matching entry in routing table");
    assert_eq!(failure_reason_text(Language::En, &format!("x{}y", v)), "Reason: Verification failed: No matching entry in routing table");
    assert_eq!(failure_reason_text(Language::En, "添加路由失败: denied"), "Reason: 添加路由失败: denied");
    assert_eq!(failure_reason_text(Language::Zh, ""), "详细原因: ");
}

#[test]
fn status_default_is_inactive() {
    assert_eq!(RouteStatus::default(), RouteStatus::Inactive);
}
