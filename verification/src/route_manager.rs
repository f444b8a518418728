//! The `route` command: checking its parameters, building its arguments, reading its
//! outcome, and reading the IPv4 routing table that `route print -4` lists.
use vstd::prelude::*;

use crate::config::{RouteItem, RouteItemView, RouteStatus, RouteStatusView};
use crate::ipv4::{Ipv4, is_ipv4_text, ipv4_of_text, parse_ipv4};
use crate::text::{
    chars_eq, chars_of, lemma_tokens_no_ws, lemma_trim_idempotent, lemma_trim_no_ws, push_chars,
    split_chars, split_on, split_tokens, string_from_chars, string_of, tokens, trim, trim_str,
};

verus! {

pub const MSG_BAD_TARGET: &'static str = "目标 IP 地址格式不正确";

pub const MSG_BAD_MASK: &'static str = "子网掩码格式不正确";

pub const MSG_BAD_GATEWAY: &'static str = "网关 IP 地址格式不正确";

pub const MSG_BAD_DELETE_TARGET: &'static str = "无效的目标 IP 地址，删除终止";

pub const MSG_ADD_FAILED: &'static str = "添加路由失败: ";

pub const MSG_DELETE_FAILED: &'static str = "删除路由失败: ";

pub const MSG_UNKNOWN_COMMAND_ERROR: &'static str = "未知命令执行错误";

pub const MSG_VERIFY_FAILED: &'static str = "验证失败: 活跃路由表中未找到匹配条目";

/// The destination that stands for the limited broadcast address.
pub const BROADCAST_TEXT: &'static str = "255.255.255.255";

/// The first complaint about a route's target, mask and gateway, each taken trimmed,
/// or `None` when all three are dotted-decimal IPv4 addresses.
pub open spec fn route_params_error(target: Seq<char>, mask: Seq<char>, gateway: Seq<char>) -> Option<
    Seq<char>,
> {
    if !is_ipv4_text(trim(target)) {
        Some(MSG_BAD_TARGET@)
    } else if !is_ipv4_text(trim(mask)) {
        Some(MSG_BAD_MASK@)
    } else if !is_ipv4_text(trim(gateway)) {
        Some(MSG_BAD_GATEWAY@)
    } else {
        None
    }
}

/// The views of a sequence of strings.
pub open spec fn strings_view(v: Seq<String>) -> Seq<Seq<char>> {
    v.map_values(|s: String| s@)
}

/// The arguments of `route` that install a route: `add <target> mask <mask> <gateway>`.
pub open spec fn add_route_args(route: RouteItemView) -> Seq<Seq<char>> {
    seq!["add"@, trim(route.target), "mask"@, trim(route.mask), trim(route.gateway)]
}

/// The arguments of `route` that remove the routes to a target: `delete <target>`.
pub open spec fn delete_route_args(target: Seq<char>) -> Seq<Seq<char>> {
    seq!["delete"@, trim(target)]
}

/// What a route command reports, given what running `route` gave: success, or the
/// failure text after the prefix.
pub open spec fn command_report(res: Result<(), String>, out: Result<String, String>, prefix: Seq<char>) -> bool {
    match out {
        Ok(_) => res is Ok,
        Err(e) => res matches Err(r) && r@ == prefix + e@,
    }
}

/// Checks that a route's target, mask and gateway are dotted-decimal IPv4 addresses
/// (each taken trimmed), which keeps anything else out of the `route` command line.
pub fn validate_route_params(target: &str, mask: &str, gateway: &str) -> (res: Result<(), String>)
    ensures
        res is Ok <==> route_params_error(target@, mask@, gateway@) is None,
        res matches Err(e) ==> route_params_error(target@, mask@, gateway@) == Some(e@),
{
    let t = trim_str(target);
    if parse_ipv4(&t).is_none() {
        return Err(string_of(MSG_BAD_TARGET));
    }
    let m = trim_str(mask);
    if parse_ipv4(&m).is_none() {
        return Err(string_of(MSG_BAD_MASK));
    }
    let g = trim_str(gateway);
    if parse_ipv4(&g).is_none() {
        return Err(string_of(MSG_BAD_GATEWAY));
    }
    Ok(())
}

/// Prefixes a failure text.
fn prefixed(prefix: &str, detail: &String) -> (s: String)
    ensures
        s@ == prefix@ + detail@,
{
    let mut v = chars_of(prefix);
    let d = chars_of(detail.as_str());
    push_chars(&mut v, &d);
    string_from_chars(&v)
}

/// Installs a static route: checks its trimmed target, mask and gateway, then hands
/// `add <target> mask <mask> <gateway>` to `run`, which runs the `route` command and
/// gives its output or its failure text. `run` may be called only with those checked
/// arguments, so text that fails the check never reaches the command.
pub fn add_route<F>(route: &RouteItem, run: F) -> (res: Result<(), String>) where
    F: FnOnce(Vec<String>) -> Result<String, String>,
    requires
        forall|args: Vec<String>|
            route_params_error(route.target@, route.mask@, route.gateway@) is None
                && strings_view(args@) == add_route_args(route@) ==> call_requires(run, (args,)),
    ensures
        route_params_error(route.target@, route.mask@, route.gateway@) matches Some(msg) ==> (
        res matches Err(e) && e@ == msg),
        route_params_error(route.target@, route.mask@, route.gateway@) is None ==> exists|
            args: Vec<String>,
            out: Result<String, String>,
        |
            #[trigger] call_ensures(run, (args,), out) && strings_view(args@) == add_route_args(
                route@,
            ) && command_report(res, out, MSG_ADD_FAILED@),
{
    let t = string_from_chars(&trim_str(route.target.as_str()));
    let m = string_from_chars(&trim_str(route.mask.as_str()));
    let g = string_from_chars(&trim_str(route.gateway.as_str()));
    proof {
        lemma_trim_idempotent(route.target@);
        lemma_trim_idempotent(route.mask@);
        lemma_trim_idempotent(route.gateway@);
    }
    match validate_route_params(t.as_str(), m.as_str(), g.as_str()) {
        Ok(()) => {},
        Err(e) => {
            return Err(e);
        },
    }
    let mut args: Vec<String> = Vec::new();
    args.push(string_of("add"));
    args.push(t);
    args.push(string_of("mask"));
    args.push(m);
    args.push(g);
    let ghost given = args;
    assert(strings_view(given@) =~= add_route_args(route@));
    let out = run(args);
    match out {
        Ok(_) => Ok(()),
        Err(e) => Err(prefixed(MSG_ADD_FAILED, &e)),
    }
}

/// Removes the routes to a target: checks the trimmed target, then hands
/// `delete <target>` to `run`, which runs the `route` command. `run` may be called only
/// with those checked arguments.
pub fn delete_route<F>(target_ip: &str, run: F) -> (res: Result<(), String>) where
    F: FnOnce(Vec<String>) -> Result<String, String>,
    requires
        forall|args: Vec<String>|
            is_ipv4_text(trim(target_ip@)) && strings_view(args@) == delete_route_args(target_ip@)
                ==> call_requires(run, (args,)),
    ensures
        !is_ipv4_text(trim(target_ip@)) ==> (res matches Err(e) && e@ == MSG_BAD_DELETE_TARGET@),
        is_ipv4_text(trim(target_ip@)) ==> exists|args: Vec<String>, out: Result<String, String>|
            #[trigger] call_ensures(run, (args,), out) && strings_view(args@) == delete_route_args(
                target_ip@,
            ) && command_report(res, out, MSG_DELETE_FAILED@),
{
    let tv = trim_str(target_ip);
    if parse_ipv4(&tv).is_none() {
        return Err(string_of(MSG_BAD_DELETE_TARGET));
    }
    let t = string_from_chars(&tv);
    let mut args: Vec<String> = Vec::new();
    args.push(string_of("delete"));
    args.push(t);
    let ghost given = args;
    assert(strings_view(given@) =~= delete_route_args(target_ip@));
    let out = run(args);
    match out {
        Ok(_) => Ok(()),
        Err(e) => Err(prefixed(MSG_DELETE_FAILED, &e)),
    }
}

/// Whether a text holds nothing but whitespace.
fn is_blank(s: &String) -> (b: bool)
    ensures
        b == (trim(s@).len() == 0),
{
    let t = trim_str(s.as_str());
    t.len() == 0
}

/// The result of a finished `route` command, from its exit status and its outputs:
/// the standard output on success; otherwise the standard error if it holds more than
/// whitespace, else the standard output if it does, else a generic failure text.
pub fn command_result(success: bool, stdout: String, stderr: String) -> (r: Result<String, String>)
    ensures
        success ==> r == Ok::<String, String>(stdout),
        !success && trim(stderr@).len() > 0 ==> r == Err::<String, String>(stderr),
        !success && trim(stderr@).len() == 0 && trim(stdout@).len() > 0 ==> r == Err::<
            String,
            String,
        >(stdout),
        !success && trim(stderr@).len() == 0 && trim(stdout@).len() == 0 ==> (r matches Err(e)
            && e@ == MSG_UNKNOWN_COMMAND_ERROR@),
{
    if success {
        Ok(stdout)
    } else if !is_blank(&stderr) {
        Err(stderr)
    } else if !is_blank(&stdout) {
        Err(stdout)
    } else {
        Err(string_of(MSG_UNKNOWN_COMMAND_ERROR))
    }
}

/// The status a freshly installed route gets once the routing table has been read:
/// active if the table lists it, failed otherwise.
pub fn verification_status(listed: bool) -> (s: RouteStatus)
    ensures
        listed ==> s@ == RouteStatusView::Active,
        !listed ==> s@ == RouteStatusView::Failed(MSG_VERIFY_FAILED@),
{
    if listed {
        RouteStatus::Active
    } else {
        RouteStatus::Failed(string_of(MSG_VERIFY_FAILED))
    }
}

/// The whitespace-separated fields of each line of a routing-table listing. Lines end at
/// `\n`; a `\r` before it, and the empty piece after a final `\n`, are whitespace or empty
/// and give no fields, so these are the fields of the listing's lines.
pub open spec fn table_rows(output: Seq<char>) -> Seq<Seq<Seq<char>>> {
    split_on(output, '\n').map_values(|l: Seq<char>| tokens(l))
}

/// Whether a row of the listing starts with the given destination, mask and gateway and
/// has at least four fields.
pub open spec fn row_matches(row: Seq<Seq<char>>, target: Seq<char>, mask: Seq<char>, gateway: Seq<char>) -> bool {
    &&& row.len() >= 4
    &&& row[0] == target
    &&& row[1] == mask
    &&& row[2] == gateway
}

/// Whether the listing holds a row for the route with the given (trimmed) destination,
/// mask and gateway.
pub open spec fn route_listed(output: Seq<char>, target: Seq<char>, mask: Seq<char>, gateway: Seq<char>) -> bool {
    exists|i: int|
        0 <= i < table_rows(output).len() && row_matches(
            #[trigger] table_rows(output)[i],
            trim(target),
            trim(mask),
            trim(gateway),
        )
}

/// Whether the listing of `route print -4` holds the route with the given target, mask
/// and gateway (each taken trimmed).
pub fn check_route_active(output: &str, target: &str, mask: &str, gateway: &str) -> (active: bool)
    ensures
        active == route_listed(output@, target@, mask@, gateway@),
{
    let t = trim_str(target);
    let m = trim_str(mask);
    let g = trim_str(gateway);
    let text = chars_of(output);
    let lines = split_chars(&text, '\n');
    let ghost rows = table_rows(output@);
    assert(rows.len() == lines@.len());
    let n = lines.len();
    for i in 0..n
        invariant
            n == lines@.len(),
            rows == table_rows(output@),
            rows.len() == n,
            lines@.map_values(|p: Vec<char>| p@) == split_on(output@, '\n'),
            t@ == trim(target@),
            m@ == trim(mask@),
            g@ == trim(gateway@),
            forall|j: int| 0 <= j < i ==> !row_matches(#[trigger] rows[j], t@, m@, g@),
    {
        assert(lines@[i as int]@ == split_on(output@, '\n')[i as int]);
        let row = split_tokens(&lines[i]);
        assert(row@.map_values(|p: Vec<char>| p@) == rows[i as int]);
        if row.len() >= 4 {
            if chars_eq(&row[0], &t) && chars_eq(&row[1], &m) && chars_eq(&row[2], &g) {
                assert(row_matches(rows[i as int], t@, m@, g@));
                return true;
            }
        }
    }
    false
}

/// A (destination, mask, gateway) row of the routing table.
pub type RouteTriple = (String, String, String);

/// The view of a (destination, mask, gateway) row.
pub open spec fn triple_view(t: RouteTriple) -> (Seq<char>, Seq<char>, Seq<char>) {
    (t.0@, t.1@, t.2@)
}

/// The views of a list of rows.
pub open spec fn triples_view(v: Seq<RouteTriple>) -> Seq<(Seq<char>, Seq<char>, Seq<char>)> {
    v.map_values(|t: RouteTriple| triple_view(t))
}

/// The static route a row of the listing describes, if it is one worth keeping: the
/// first three fields are dotted-decimal IPv4 addresses, and it is neither the default
/// route, a loopback, multicast or broadcast destination, a route through 127.0.0.1,
/// nor (when a fifth field follows) a direct route whose gateway is its interface.
pub open spec fn scan_row(row: Seq<Seq<char>>) -> Option<(Seq<char>, Seq<char>, Seq<char>)> {
    if row.len() >= 4 && is_ipv4_text(row[0]) && is_ipv4_text(row[1]) && is_ipv4_text(row[2]) {
        let t = ipv4_of_text(row[0]);
        let g = ipv4_of_text(row[2]);
        if t.spec_is_unspecified() || t.spec_is_loopback() || t.spec_is_multicast() || row[0]
            == BROADCAST_TEXT@ || g == Ipv4::localhost() {
            None
        } else if row.len() >= 5 && is_ipv4_text(row[3]) && g == ipv4_of_text(row[3]) {
            None
        } else {
            Some((row[0], row[1], row[2]))
        }
    } else {
        None
    }
}

/// The static routes of a sequence of rows, in order of first appearance, each once.
pub open spec fn scan_rows(rows: Seq<Seq<Seq<char>>>) -> Seq<(Seq<char>, Seq<char>, Seq<char>)>
    decreases rows.len(),
{
    if rows.len() == 0 {
        Seq::empty()
    } else {
        let acc = scan_rows(rows.drop_last());
        match scan_row(rows.last()) {
            Some(r) => if acc.contains(r) {
                acc
            } else {
                acc.push(r)
            },
            None => acc,
        }
    }
}

/// The static routes that a `route print -4` listing shows.
pub open spec fn scanned_routes(output: Seq<char>) -> Seq<(Seq<char>, Seq<char>, Seq<char>)> {
    scan_rows(table_rows(output))
}

/// Whether a row is already among the collected routes.
fn triple_listed(routes: &Vec<RouteTriple>, t: &String, m: &String, g: &String) -> (found: bool)
    ensures
        found == triples_view(routes@).contains((t@, m@, g@)),
{
    let n = routes.len();
    for k in 0..n
        invariant
            n == routes.len(),
            forall|j: int| 0 <= j < k ==> triple_view(#[trigger] routes@[j]) != (t@, m@, g@),
    {
        let r = &routes[k];
        if r.0 == *t && r.1 == *m && r.2 == *g {
            assert(triples_view(routes@)[k as int] == (t@, m@, g@));
            return true;
        }
    }
    proof {
        if triples_view(routes@).contains((t@, m@, g@)) {
            let j = choose|j: int| 0 <= j < triples_view(routes@).len() && triples_view(routes@)[j] == (t@, m@, g@);
            assert(triple_view(routes@[j]) == (t@, m@, g@));
        }
    }
    false
}

/// The static route a row of the listing describes, if it is one worth keeping.
fn scan_row_exec(row: &Vec<Vec<char>>) -> (r: Option<RouteTriple>)
    ensures
        r matches Some(x) ==> scan_row(row@.map_values(|p: Vec<char>| p@)) == Some(triple_view(x)),
        r is None ==> scan_row(row@.map_values(|p: Vec<char>| p@)) is None,
{
    let ghost rv = row@.map_values(|p: Vec<char>| p@);
    if row.len() < 4 {
        return None;
    }
    assert(rv[0] == row@[0]@ && rv[1] == row@[1]@ && rv[2] == row@[2]@ && rv[3] == row@[3]@);
    let t_ip = match parse_ipv4(&row[0]) {
        Some(x) => x,
        None => return None,
    };
    let m_ip = match parse_ipv4(&row[1]) {
        Some(x) => x,
        None => return None,
    };
    let g_ip = match parse_ipv4(&row[2]) {
        Some(x) => x,
        None => return None,
    };
    if t_ip.is_unspecified() || t_ip.is_loopback() || t_ip.is_multicast() {
        return None;
    }
    let broadcast = chars_of(BROADCAST_TEXT);
    if chars_eq(&row[0], &broadcast) {
        return None;
    }
    if g_ip.is_localhost() {
        return None;
    }
    if row.len() >= 5 {
        match parse_ipv4(&row[3]) {
            Some(i_ip) => {
                if g_ip.same(&i_ip) {
                    return None;
                }
            },
            None => {},
        }
    }
    let t = string_from_chars(&row[0]);
    let m = string_from_chars(&row[1]);
    let g = string_from_chars(&row[2]);
    Some((t, m, g))
}

/// The manually added static routes that a `route print -4` listing shows, in order of
/// first appearance and each once; default, loopback, multicast, broadcast, localhost
/// gateway and direct interface routes are left out.
pub fn scan_existing_routes(output: &str) -> (routes: Vec<RouteTriple>)
    ensures
        triples_view(routes@) == scanned_routes(output@),
{
    let text = chars_of(output);
    let lines = split_chars(&text, '\n');
    let ghost rows = table_rows(output@);
    let n = lines.len();
    let mut routes: Vec<RouteTriple> = Vec::new();
    assert(rows.take(0) =~= Seq::<Seq<Seq<char>>>::empty());
    for i in 0..n
        invariant
            n == lines@.len(),
            rows == table_rows(output@),
            rows.len() == n,
            lines@.map_values(|p: Vec<char>| p@) == split_on(output@, '\n'),
            triples_view(routes@) == scan_rows(rows.take(i as int)),
    {
        assert(lines@[i as int]@ == split_on(output@, '\n')[i as int]);
        let row = split_tokens(&lines[i]);
        assert(row@.map_values(|p: Vec<char>| p@) == rows[i as int]);
        assert(rows.take(i + 1).drop_last() =~= rows.take(i as int));
        assert(rows.take(i + 1).last() == rows[i as int]);
        match scan_row_exec(&row) {
            Some(x) => {
                if !triple_listed(&routes, &x.0, &x.1, &x.2) {
                    let ghost before = routes@;
                    routes.push(x);
                    assert(triples_view(routes@) =~= triples_view(before).push(triple_view(x)));
                }
            },
            None => {},
        }
    }
    assert(rows.take(n as int) =~= rows);
    routes
}

} // verus!

verus! {

proof fn lemma_scan_rows_origin(rows: Seq<Seq<Seq<char>>>, x: (Seq<char>, Seq<char>, Seq<char>))
    requires
        scan_rows(rows).contains(x),
    ensures
        exists|i: int| 0 <= i < rows.len() && scan_row(#[trigger] rows[i]) == Some(x),
    decreases rows.len(),
{
    let pre = rows.drop_last();
    let acc = scan_rows(pre);
    if acc.contains(x) {
        lemma_scan_rows_origin(pre, x);
        let i = choose|i: int| 0 <= i < pre.len() && scan_row(#[trigger] pre[i]) == Some(x);
        assert(rows[i] == pre[i]);
    } else {
        assert(scan_row(rows[rows.len() - 1]) == Some(x));
    }
}

proof fn lemma_scan_rows_distinct(rows: Seq<Seq<Seq<char>>>)
    ensures
        forall|i: int, j: int|
            0 <= i < j < scan_rows(rows).len() ==> scan_rows(rows)[i] != scan_rows(rows)[j],
    decreases rows.len(),
{
    if rows.len() > 0 {
        let pre = rows.drop_last();
        lemma_scan_rows_distinct(pre);
        let acc = scan_rows(pre);
        let res = scan_rows(rows);
        if res != acc {
            assert forall|i: int, j: int| 0 <= i < j < res.len() implies res[i] != res[j] by {
                if j == res.len() - 1 {
                    assert(res[i] == acc[i]);
                    assert(!acc.contains(res[j]));
                } else {
                    assert(res[i] == acc[i] && res[j] == acc[j]);
                }
            }
        }
    }
}

/// Every route the scan finds is one that checking the same listing reports as present:
/// the scan and the check read the listing alike.
pub proof fn law_scanned_routes_are_listed(output: Seq<char>, k: int)
    requires
        0 <= k < scanned_routes(output).len(),
    ensures
        route_listed(
            output,
            scanned_routes(output)[k].0,
            scanned_routes(output)[k].1,
            scanned_routes(output)[k].2,
        ),
{
    let rows = table_rows(output);
    let x = scanned_routes(output)[k];
    assert(scan_rows(rows).contains(x));
    lemma_scan_rows_origin(rows, x);
    let i = choose|i: int| 0 <= i < rows.len() && scan_row(#[trigger] rows[i]) == Some(x);
    let line = split_on(output, '\n')[i];
    assert(rows[i] == tokens(line));
    lemma_tokens_no_ws(line);
    let row = rows[i];
    assert(row[0] == x.0 && row[1] == x.1 && row[2] == x.2);
    lemma_trim_no_ws(row[0]);
    lemma_trim_no_ws(row[1]);
    lemma_trim_no_ws(row[2]);
    assert(row_matches(rows[i], trim(x.0), trim(x.1), trim(x.2)));
}

/// The routes the scan finds are each listed once, are made of dotted-decimal addresses,
/// and leave out the default route, loopback, multicast and broadcast destinations, and
/// routes through 127.0.0.1.
pub proof fn law_scanned_routes_are_static(output: Seq<char>)
    ensures
        forall|i: int, j: int|
            0 <= i < j < scanned_routes(output).len() ==> scanned_routes(output)[i]
                != scanned_routes(output)[j],
        forall|k: int|
            0 <= k < scanned_routes(output).len() ==> {
                let x = #[trigger] scanned_routes(output)[k];
                &&& is_ipv4_text(x.0)
                &&& is_ipv4_text(x.1)
                &&& is_ipv4_text(x.2)
                &&& !ipv4_of_text(x.0).spec_is_unspecified()
                &&& !ipv4_of_text(x.0).spec_is_loopback()
                &&& !ipv4_of_text(x.0).spec_is_multicast()
                &&& x.0 != BROADCAST_TEXT@
                &&& ipv4_of_text(x.2) != Ipv4::localhost()
            },
{
    let rows = table_rows(output);
    lemma_scan_rows_distinct(rows);
    assert forall|k: int| 0 <= k < scanned_routes(output).len() implies {
        let x = #[trigger] scanned_routes(output)[k];
        &&& is_ipv4_text(x.0)
        &&& is_ipv4_text(x.1)
        &&& is_ipv4_text(x.2)
        &&& !ipv4_of_text(x.0).spec_is_unspecified()
        &&& !ipv4_of_text(x.0).spec_is_loopback()
        &&& !ipv4_of_text(x.0).spec_is_multicast()
        &&& x.0 != BROADCAST_TEXT@
        &&& ipv4_of_text(x.2) != Ipv4::localhost()
    } by {
        let x = scanned_routes(output)[k];
        assert(scan_rows(rows).contains(x));
        lemma_scan_rows_origin(rows, x);
    }
}

proof fn lemma_scan_rows_complete(rows: Seq<Seq<Seq<char>>>, i: int)
    requires
        0 <= i < rows.len(),
        scan_row(rows[i]) is Some,
    ensures
        scan_rows(rows).contains(scan_row(rows[i])->0),
    decreases rows.len(),
{
    let pre = rows.drop_last();
    let acc = scan_rows(pre);
    let x = scan_row(rows[i])->0;
    if i < rows.len() - 1 {
        assert(pre[i] == rows[i]);
        lemma_scan_rows_complete(pre, i);
        let j = choose|j: int| 0 <= j < acc.len() && acc[j] == x;
        match scan_row(rows.last()) {
            Some(r) => {
                if !acc.contains(r) {
                    assert(acc.push(r)[j] == x);
                }
            },
            None => {},
        }
    } else {
        assert(rows.last() == rows[i]);
        if !acc.contains(x) {
            assert(acc.push(x)[acc.len() as int] == x);
        }
    }
}

proof fn lemma_scan_rows_order(rows: Seq<Seq<Seq<char>>>, p: int, q: int)
    requires
        0 <= p < q < scan_rows(rows).len(),
    ensures
        exists|a: int|
            0 <= a < rows.len() && scan_row(#[trigger] rows[a]) == Some(scan_rows(rows)[p])
                && forall|b: int|
                0 <= b < rows.len() && scan_row(#[trigger] rows[b]) == Some(scan_rows(rows)[q])
                    ==> a < b,
    decreases rows.len(),
{
    let pre = rows.drop_last();
    let acc = scan_rows(pre);
    let res = scan_rows(rows);
    let last = rows.len() - 1;
    if q < acc.len() {
        assert(res[p] == acc[p] && res[q] == acc[q]);
        lemma_scan_rows_order(pre, p, q);
        let a = choose|a: int|
            0 <= a < pre.len() && scan_row(#[trigger] pre[a]) == Some(acc[p]) && forall|b: int|
                0 <= b < pre.len() && scan_row(#[trigger] pre[b]) == Some(acc[q]) ==> a < b;
        assert(rows[a] == pre[a]);
        assert forall|b: int|
            0 <= b < rows.len() && scan_row(#[trigger] rows[b]) == Some(res[q]) implies a < b by {
            if b < last {
                assert(rows[b] == pre[b]);
            }
        }
    } else {
        // the last route found is the one the last row adds
        assert(res == acc.push(res[q]));
        assert(!acc.contains(res[q]));
        assert(res[p] == acc[p]);
        assert(acc.contains(acc[p]));
        lemma_scan_rows_origin(pre, acc[p]);
        let a = choose|a: int| 0 <= a < pre.len() && scan_row(#[trigger] pre[a]) == Some(acc[p]);
        assert(rows[a] == pre[a]);
        assert forall|b: int|
            0 <= b < rows.len() && scan_row(#[trigger] rows[b]) == Some(res[q]) implies a < b by {
            if b < last {
                assert(rows[b] == pre[b]);
                lemma_scan_rows_complete(pre, b);
            }
        }
    }
}

/// The scan gives its routes in the order in which they first appear in the listing: of
/// two routes found, the earlier one has a line before every line of the later one.
pub proof fn law_scan_keeps_listing_order(output: Seq<char>, p: int, q: int)
    requires
        0 <= p < q < scanned_routes(output).len(),
    ensures
        exists|a: int|
            0 <= a < split_on(output, '\n').len() && scan_row(
                tokens(#[trigger] split_on(output, '\n')[a]),
            ) == Some(scanned_routes(output)[p]) && forall|b: int|
                0 <= b < split_on(output, '\n').len() && scan_row(
                    tokens(#[trigger] split_on(output, '\n')[b]),
                ) == Some(scanned_routes(output)[q]) ==> a < b,
{
    let rows = table_rows(output);
    let lines = split_on(output, '\n');
    assert(rows.len() == lines.len());
    lemma_scan_rows_order(rows, p, q);
    let a = choose|a: int|
        0 <= a < rows.len() && scan_row(#[trigger] rows[a]) == Some(scan_rows(rows)[p])
            && forall|b: int|
            0 <= b < rows.len() && scan_row(#[trigger] rows[b]) == Some(scan_rows(rows)[q])
                ==> a < b;
    assert(rows[a] == tokens(lines[a]));
    assert forall|b: int|
        0 <= b < lines.len() && scan_row(tokens(#[trigger] lines[b])) == Some(
            scanned_routes(output)[q],
        ) implies a < b by {
        assert(rows[b] == tokens(lines[b]));
    }
}

/// The check reports a route exactly when some line of the listing has at least four
/// whitespace-separated fields, of which the first three are the trimmed target, the
/// trimmed mask and the trimmed gateway: a route through another gateway, or with another
/// mask, is not the one asked about.
pub proof fn law_check_reads_target_mask_gateway(
    output: Seq<char>,
    target: Seq<char>,
    mask: Seq<char>,
    gateway: Seq<char>,
)
    ensures
        route_listed(output, target, mask, gateway) <==> exists|i: int|
            #![trigger split_on(output, '\n')[i]]
            0 <= i < split_on(output, '\n').len() && {
                let f = tokens(split_on(output, '\n')[i]);
                &&& f.len() >= 4
                &&& f[0] == trim(target)
                &&& f[1] == trim(mask)
                &&& f[2] == trim(gateway)
            },
{
    let lines = split_on(output, '\n');
    let rows = table_rows(output);
    assert(rows.len() == lines.len());
    if route_listed(output, target, mask, gateway) {
        let i = choose|i: int|
            0 <= i < rows.len() && row_matches(
                #[trigger] rows[i],
                trim(target),
                trim(mask),
                trim(gateway),
            );
        assert(rows[i] == tokens(lines[i]));
    }
    if exists|i: int|
        #![trigger split_on(output, '\n')[i]]
        0 <= i < split_on(output, '\n').len() && {
            let f = tokens(split_on(output, '\n')[i]);
            &&& f.len() >= 4
            &&& f[0] == trim(target)
            &&& f[1] == trim(mask)
            &&& f[2] == trim(gateway)
        } {
        let i = choose|i: int|
            #![trigger split_on(output, '\n')[i]]
            0 <= i < split_on(output, '\n').len() && {
                let f = tokens(split_on(output, '\n')[i]);
                &&& f.len() >= 4
                &&& f[0] == trim(target)
                &&& f[1] == trim(mask)
                &&& f[2] == trim(gateway)
            };
        assert(rows[i] == tokens(lines[i]));
        assert(row_matches(rows[i], trim(target), trim(mask), trim(gateway)));
    }
}

/// The scan misses no static route: every line of the listing whose fields describe a
/// route worth keeping has that route among those found, also where another found route
/// shares its target or its mask.
pub proof fn law_scan_finds_every_static_route(output: Seq<char>, i: int)
    requires
        0 <= i < split_on(output, '\n').len(),
        scan_row(tokens(split_on(output, '\n')[i])) is Some,
    ensures
        scanned_routes(output).contains(scan_row(tokens(split_on(output, '\n')[i]))->0),
{
    let rows = table_rows(output);
    assert(rows[i] == tokens(split_on(output, '\n')[i]));
    lemma_scan_rows_complete(rows, i);
}

/// A route command only ever carries its keywords and dotted-decimal addresses, so the
/// command line holds nothing but letters, digits and dots.
pub proof fn law_add_command_is_plain(route: RouteItemView)
    requires
        route_params_error(route.target, route.mask, route.gateway) is None,
    ensures
        forall|k: int|
            0 <= k < add_route_args(route).len() && k != 0 && k != 2 ==> is_ipv4_text(
                #[trigger] add_route_args(route)[k],
            ),
        add_route_args(route)[0] == "add"@,
        add_route_args(route)[2] == "mask"@,
{
}

} // verus!
