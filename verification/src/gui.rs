//! The texts the window and the notifications show, by language.
use vstd::prelude::*;

use crate::config::{RouteItem, RouteItemView};
use crate::locale::Language;
use crate::route_manager::MSG_VERIFY_FAILED;
use crate::routes::lang_text;
use crate::text::{chars_of, contains_chars, contains_seq, push_chars, push_str, string_from_chars};
use crate::traffic::{InterfaceInfo, InterfaceInfoView, infos_view};

verus! {

pub const ELLIPSIS: &'static str = "...";

/// The text cut to its first `max_chars` characters, with `...` after it when it was
/// longer.
pub open spec fn truncated(s: Seq<char>, max_chars: nat) -> Seq<char> {
    if s.len() > max_chars {
        s.take(max_chars as int) + ELLIPSIS@
    } else {
        s
    }
}

/// Cuts an over-long text to its first `max_chars` characters and appends `...`, so that
/// it does not stretch the window.
pub fn truncate_str(s: &str, max_chars: usize) -> (r: String)
    ensures
        r@ == truncated(s@, max_chars as nat),
{
    let v = chars_of(s);
    if v.len() > max_chars {
        let mut out: Vec<char> = Vec::new();
        for i in 0..max_chars
            invariant
                max_chars < v.len(),
                out@ == v@.take(i as int),
        {
            out.push(v[i]);
            assert(v@.take(i + 1) =~= v@.take(i as int).push(v@[i as int]));
        }
        push_str(&mut out, ELLIPSIS);
        string_from_chars(&out)
    } else {
        string_from_chars(&v)
    }
}

/// A truncated text is a prefix of the input text followed by at most the ellipsis, and it
/// is the input itself when that is short enough.
pub proof fn law_truncation_keeps_prefix(s: Seq<char>, max_chars: nat)
    ensures
        truncated(s, max_chars).len() <= max_chars + ELLIPSIS@.len(),
        s.len() <= max_chars ==> truncated(s, max_chars) == s,
        s.len() > max_chars ==> truncated(s, max_chars).take(max_chars as int) == s.take(
            max_chars as int,
        ),
{
    if s.len() > max_chars {
        assert((s.take(max_chars as int) + ELLIPSIS@).take(max_chars as int) =~= s.take(
            max_chars as int,
        ));
    }
}

/// The index of the first entry that satisfies `p`.
pub open spec fn first_info_where(infos: Seq<InterfaceInfoView>, p: spec_fn(InterfaceInfoView) -> bool) -> Option<int> {
    if exists|i: int| 0 <= i < infos.len() && p(#[trigger] infos[i]) {
        Some(
            choose|i: int|
                0 <= i < infos.len() && p(#[trigger] infos[i]) && forall|j: int|
                    0 <= j < i ==> !p(#[trigger] infos[j]),
        )
    } else {
        None
    }
}

proof fn lemma_first_info(infos: Seq<InterfaceInfoView>, p: spec_fn(InterfaceInfoView) -> bool, i: int)
    requires
        0 <= i < infos.len(),
        p(infos[i]),
        forall|j: int| 0 <= j < i ==> !p(#[trigger] infos[j]),
    ensures
        first_info_where(infos, p) == Some(i),
{
    let k = choose|k: int|
        0 <= k < infos.len() && p(#[trigger] infos[k]) && forall|j: int|
            0 <= j < k ==> !p(#[trigger] infos[j]);
    assert(p(infos[i]));
    if k < i {
        assert(!p(infos[k]));
    }
    if k > i {
        assert(!p(infos[i]));
    }
}

/// A wireless interface that is connected.
pub open spec fn wireless_active() -> spec_fn(InterfaceInfoView) -> bool {
    |i: InterfaceInfoView| i.is_wireless && i.is_active
}

/// A connected interface.
pub open spec fn active() -> spec_fn(InterfaceInfoView) -> bool {
    |i: InterfaceInfoView| i.is_active
}

pub const AUTO_WIRELESS_ZH: &'static str = "📶 自动(无线): ";

pub const AUTO_WIRELESS_EN: &'static str = "📶 Auto(Wifi): ";

pub const AUTO_WIRED_ZH: &'static str = "🔌 自动(有线): ";

pub const AUTO_WIRED_EN: &'static str = "🔌 Auto(Wired): ";

pub const AUTO_SELECT_ZH: &'static str = "🔍 自动选择";

pub const AUTO_SELECT_EN: &'static str = "🔍 Auto Select";

/// The caption of the interface selector: the chosen interface's name; with none
/// chosen, the interface watched by default (the first connected wireless one, else the
/// first connected one), or "automatic" when none is connected.
pub open spec fn selection_label(lang: Language, current: Option<Seq<char>>, infos: Seq<InterfaceInfoView>) -> Seq<char> {
    match current {
        Some(name) => name,
        None => match first_info_where(infos, wireless_active()) {
            Some(i) => lang_text(lang, AUTO_WIRELESS_ZH@, AUTO_WIRELESS_EN@) + infos[i].friendly_name,
            None => match first_info_where(infos, active()) {
                Some(i) => lang_text(lang, AUTO_WIRED_ZH@, AUTO_WIRED_EN@) + infos[i].friendly_name,
                None => lang_text(lang, AUTO_SELECT_ZH@, AUTO_SELECT_EN@),
            },
        },
    }
}

/// The optional chosen interface name as text.
pub open spec fn current_view(current: Option<String>) -> Option<Seq<char>> {
    match current {
        Some(n) => Some(n@),
        None => None,
    }
}

/// The caption of the interface selector, before it is cut to fit.
pub fn interface_selection_label(lang: Language, current: &Option<String>, interfaces: &Vec<InterfaceInfo>) -> (label: String)
    ensures
        label@ == selection_label(lang, current_view(*current), infos_view(interfaces@)),
{
    match current {
        Some(name) => {
            return name.clone();
        },
        None => {},
    }
    let ghost iv = infos_view(interfaces@);
    let n = interfaces.len();
    for i in 0..n
        invariant
            n == interfaces.len(),
            iv == infos_view(interfaces@),
            *current is None,
            forall|j: int| 0 <= j < i ==> !wireless_active()(#[trigger] iv[j]),
    {
        assert(iv[i as int] == interfaces@[i as int]@);
        if interfaces[i].is_wireless && interfaces[i].is_active {
            proof {
                lemma_first_info(iv, wireless_active(), i as int);
            }
            let mut v = chars_of(lang.t(AUTO_WIRELESS_ZH, AUTO_WIRELESS_EN));
            let name = chars_of(interfaces[i].friendly_name.as_str());
            push_chars(&mut v, &name);
            return string_from_chars(&v);
        }
    }
    for i in 0..n
        invariant
            n == interfaces.len(),
            iv == infos_view(interfaces@),
            *current is None,
            forall|j: int| 0 <= j < n ==> !wireless_active()(#[trigger] iv[j]),
            forall|j: int| 0 <= j < i ==> !active()(#[trigger] iv[j]),
    {
        assert(iv[i as int] == interfaces@[i as int]@);
        if interfaces[i].is_active {
            proof {
                lemma_first_info(iv, active(), i as int);
            }
            let mut v = chars_of(lang.t(AUTO_WIRED_ZH, AUTO_WIRED_EN));
            let name = chars_of(interfaces[i].friendly_name.as_str());
            push_chars(&mut v, &name);
            return string_from_chars(&v);
        }
    }
    let v = chars_of(lang.t(AUTO_SELECT_ZH, AUTO_SELECT_EN));
    string_from_chars(&v)
}

pub const ICON_WIRELESS: &'static str = "📶";

pub const ICON_WIRED: &'static str = "🔌";

pub const CONNECTED_ZH: &'static str = "已连接";

pub const CONNECTED_EN: &'static str = "Connected";

pub const DISCONNECTED_ZH: &'static str = "未连接";

pub const DISCONNECTED_EN: &'static str = "Disconnected";

/// An entry of the interface selector: its kind's icon, its name and whether it is
/// connected.
pub open spec fn menu_label(lang: Language, info: InterfaceInfoView) -> Seq<char> {
    (if info.is_wireless {
        ICON_WIRELESS@
    } else {
        ICON_WIRED@
    }) + seq![' '] + info.friendly_name + seq![' ', '('] + (if info.is_active {
        lang_text(lang, CONNECTED_ZH@, CONNECTED_EN@)
    } else {
        lang_text(lang, DISCONNECTED_ZH@, DISCONNECTED_EN@)
    }) + seq![')']
}

/// The text of an entry of the interface selector.
pub fn interface_menu_label(lang: Language, info: &InterfaceInfo) -> (label: String)
    ensures
        label@ == menu_label(lang, info@),
{
    let mut v = chars_of(if info.is_wireless { ICON_WIRELESS } else { ICON_WIRED });
    v.push(' ');
    let name = chars_of(info.friendly_name.as_str());
    push_chars(&mut v, &name);
    v.push(' ');
    v.push('(');
    let status = if info.is_active {
        lang.t(CONNECTED_ZH, CONNECTED_EN)
    } else {
        lang.t(DISCONNECTED_ZH, DISCONNECTED_EN)
    };
    push_str(&mut v, status);
    v.push(')');
    assert(v@ =~= menu_label(lang, info@));
    string_from_chars(&v)
}

pub const DETAIL_TARGET_ZH: &'static str = "目标: ";

pub const DETAIL_MASK_ZH: &'static str = "  掩码: ";

pub const DETAIL_GATEWAY_ZH: &'static str = "  网关: ";

pub const DETAIL_TARGET_EN: &'static str = "Target: ";

pub const DETAIL_MASK_EN: &'static str = "  Mask: ";

pub const DETAIL_GATEWAY_EN: &'static str = "  Gateway: ";

/// The line under a route's name: its target, mask and gateway.
pub open spec fn detail_text(lang: Language, r: RouteItemView) -> Seq<char> {
    lang_text(lang, DETAIL_TARGET_ZH@, DETAIL_TARGET_EN@) + r.target + lang_text(
        lang,
        DETAIL_MASK_ZH@,
        DETAIL_MASK_EN@,
    ) + r.mask + lang_text(lang, DETAIL_GATEWAY_ZH@, DETAIL_GATEWAY_EN@) + r.gateway
}

/// The line under a route's name.
pub fn route_detail_text(lang: Language, route: &RouteItem) -> (text: String)
    ensures
        text@ == detail_text(lang, route@),
{
    let mut v = chars_of(lang.t(DETAIL_TARGET_ZH, DETAIL_TARGET_EN));
    push_chars(&mut v, &chars_of(route.target.as_str()));
    push_str(&mut v, lang.t(DETAIL_MASK_ZH, DETAIL_MASK_EN));
    push_chars(&mut v, &chars_of(route.mask.as_str()));
    push_str(&mut v, lang.t(DETAIL_GATEWAY_ZH, DETAIL_GATEWAY_EN));
    push_chars(&mut v, &chars_of(route.gateway.as_str()));
    assert(v@ =~= detail_text(lang, route@));
    string_from_chars(&v)
}

pub const REASON_ZH: &'static str = "详细原因: ";

pub const REASON_EN: &'static str = "Reason: ";

pub const VERIFY_FAILED_EN: &'static str = "Verification failed: No matching entry in routing table";

/// The hover text of a failed route: the reason, with the verification failure told in
/// the user's language.
pub open spec fn reason_text(lang: Language, err: Seq<char>) -> Seq<char> {
    let known = contains_seq(err, MSG_VERIFY_FAILED@);
    match lang {
        Language::Zh => REASON_ZH@ + (if known {
            MSG_VERIFY_FAILED@
        } else {
            err
        }),
        Language::En => REASON_EN@ + (if known {
            VERIFY_FAILED_EN@
        } else {
            err
        }),
    }
}

/// The hover text of a failed route.
pub fn failure_reason_text(lang: Language, err: &str) -> (text: String)
    ensures
        text@ == reason_text(lang, err@),
{
    let e = chars_of(err);
    let known = contains_chars(&e, &chars_of(MSG_VERIFY_FAILED));
    let mut v = chars_of(lang.t(REASON_ZH, REASON_EN));
    if known {
        push_str(&mut v, lang.t(MSG_VERIFY_FAILED, VERIFY_FAILED_EN));
    } else {
        push_chars(&mut v, &e);
    }
    string_from_chars(&v)
}

pub const REBUILT_ZH_BEFORE: &'static str = "静态路由 [";

pub const REBUILT_ZH_AFTER: &'static str = "] 意外丢失已在 1 秒内自动静默重建并生效！";

pub const REBUILT_EN_BEFORE: &'static str = "Static route [";

pub const REBUILT_EN_AFTER: &'static str = "] was lost and has been rebuilt silently within 1 second!";

/// The notification that a lost route is back.
pub open spec fn rebuilt_text(lang: Language, name: Seq<char>) -> Seq<char> {
    lang_text(lang, REBUILT_ZH_BEFORE@, REBUILT_EN_BEFORE@) + name + lang_text(
        lang,
        REBUILT_ZH_AFTER@,
        REBUILT_EN_AFTER@,
    )
}

/// The notification that a lost route is back.
pub fn route_rebuilt_message(lang: Language, name: &String) -> (text: String)
    ensures
        text@ == rebuilt_text(lang, name@),
{
    let mut v = chars_of(lang.t(REBUILT_ZH_BEFORE, REBUILT_EN_BEFORE));
    push_chars(&mut v, &chars_of(name.as_str()));
    push_str(&mut v, lang.t(REBUILT_ZH_AFTER, REBUILT_EN_AFTER));
    string_from_chars(&v)
}

pub const SWITCHED_ZH: &'static str = "已成功切换监听网卡为：";

pub const SWITCHED_EN: &'static str = "Successfully switched interface to: ";

/// The message after the user picked an interface.
pub open spec fn switched_text(lang: Language, name: Seq<char>) -> Seq<char> {
    lang_text(lang, SWITCHED_ZH@, SWITCHED_EN@) + name
}

/// The message after the user picked an interface.
pub fn interface_switched_message(lang: Language, name: &String) -> (text: String)
    ensures
        text@ == switched_text(lang, name@),
{
    let mut v = chars_of(lang.t(SWITCHED_ZH, SWITCHED_EN));
    push_chars(&mut v, &chars_of(name.as_str()));
    string_from_chars(&v)
}

} // verus!
