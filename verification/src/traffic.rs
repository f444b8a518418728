//! Network interfaces and traffic: which interfaces to offer, whose byte counters to
//! watch, and per-second rates from successive readings of those counters.
use vstd::prelude::*;

use crate::text::{chars_eq, chars_of, string_of};

verus! {

/// The interface type of the software loopback interface.
pub const IF_TYPE_SOFTWARE_LOOPBACK: u32 = 24;

/// The interface type of an IEEE 802.11 wireless interface.
pub const IF_TYPE_IEEE80211: u32 = 71;

/// The operational status of an interface that is up.
pub const IF_OPER_STATUS_UP: i32 = 1;

/// The shortest interval, in nanoseconds, over which a rate is measured.
pub const MIN_SAMPLE_NANOS: u64 = 100_000_000;

pub const MSG_NO_INTERFACE: &'static str = "系统上未找到任何可用的网卡接口";

/// Cumulative byte counters of an interface (or of several, added up).
#[derive(Debug, Clone, Copy, PartialEq, Eq, Structural)]
pub struct TrafficStats {
    pub total_rx: u64,
    pub total_tx: u64,
}

/// An interface as the selection list shows it.
#[derive(Debug, PartialEq)]
pub struct InterfaceInfo {
    pub friendly_name: String,
    pub is_wireless: bool,
    pub is_active: bool,
}

/// The mathematical value of an [`InterfaceInfo`].
pub struct InterfaceInfoView {
    pub friendly_name: Seq<char>,
    pub is_wireless: bool,
    pub is_active: bool,
}

impl View for InterfaceInfo {
    type V = InterfaceInfoView;

    open spec fn view(&self) -> InterfaceInfoView {
        InterfaceInfoView {
            friendly_name: self.friendly_name@,
            is_wireless: self.is_wireless,
            is_active: self.is_active,
        }
    }
}

impl Clone for InterfaceInfo {
    fn clone(&self) -> (r: Self)
        ensures
            r == *self,
    {
        InterfaceInfo {
            friendly_name: self.friendly_name.clone(),
            is_wireless: self.is_wireless,
            is_active: self.is_active,
        }
    }
}

/// One row of the system's interface table: the interface's description, its type, its
/// operational status and its byte counters.
#[derive(Debug)]
pub struct InterfaceRow {
    pub description: String,
    pub if_type: u32,
    pub oper_status: i32,
    pub in_octets: u64,
    pub out_octets: u64,
}

/// The mathematical value of an [`InterfaceRow`].
pub struct InterfaceRowView {
    pub description: Seq<char>,
    pub if_type: u32,
    pub oper_status: i32,
    pub in_octets: u64,
    pub out_octets: u64,
}

impl View for InterfaceRow {
    type V = InterfaceRowView;

    open spec fn view(&self) -> InterfaceRowView {
        InterfaceRowView {
            description: self.description@,
            if_type: self.if_type,
            oper_status: self.oper_status,
            in_octets: self.in_octets,
            out_octets: self.out_octets,
        }
    }
}

/// The views of a table of interface rows.
pub open spec fn rows_view(rows: Seq<InterfaceRow>) -> Seq<InterfaceRowView> {
    rows.map_values(|r: InterfaceRow| r@)
}

/// The selection-list entry of an interface row.
pub open spec fn info_of_row(r: InterfaceRowView) -> InterfaceInfoView {
    InterfaceInfoView {
        friendly_name: r.description,
        is_wireless: r.if_type == IF_TYPE_IEEE80211,
        is_active: r.oper_status == IF_OPER_STATUS_UP,
    }
}

/// The selection-list entries of a table: every interface but the loopback, in order.
pub open spec fn interface_infos(rows: Seq<InterfaceRowView>) -> Seq<InterfaceInfoView>
    decreases rows.len(),
{
    if rows.len() == 0 {
        Seq::empty()
    } else {
        let pre = interface_infos(rows.drop_last());
        if rows.last().if_type != IF_TYPE_SOFTWARE_LOOPBACK {
            pre.push(info_of_row(rows.last()))
        } else {
            pre
        }
    }
}

/// The views of a list of selection-list entries.
pub open spec fn infos_view(v: Seq<InterfaceInfo>) -> Seq<InterfaceInfoView> {
    v.map_values(|i: InterfaceInfo| i@)
}

/// Every interface of the table but the loopback, as the selection list shows them.
pub fn list_network_interfaces(rows: &Vec<InterfaceRow>) -> (list: Vec<InterfaceInfo>)
    ensures
        infos_view(list@) == interface_infos(rows_view(rows@)),
{
    let ghost rv = rows_view(rows@);
    let n = rows.len();
    let mut list: Vec<InterfaceInfo> = Vec::new();
    assert(rv.take(0) =~= Seq::<InterfaceRowView>::empty());
    for i in 0..n
        invariant
            n == rows.len(),
            rv == rows_view(rows@),
            infos_view(list@) == interface_infos(rv.take(i as int)),
    {
        let row = &rows[i];
        assert(rv.take(i + 1).drop_last() =~= rv.take(i as int));
        assert(rv.take(i + 1).last() == row@);
        if row.if_type != IF_TYPE_SOFTWARE_LOOPBACK {
            let ghost before = list@;
            let info = InterfaceInfo {
                friendly_name: row.description.clone(),
                is_wireless: row.if_type == IF_TYPE_IEEE80211,
                is_active: row.oper_status == IF_OPER_STATUS_UP,
            };
            list.push(info);
            assert(infos_view(list@) =~= infos_view(before).push(info_of_row(row@)));
        }
    }
    assert(rv.take(n as int) =~= rv);
    list
}

/// The index of the first row that satisfies `p`.
pub open spec fn first_where(rows: Seq<InterfaceRowView>, p: spec_fn(InterfaceRowView) -> bool) -> Option<int>
    decreases rows.len(),
{
    if rows.len() == 0 {
        None
    } else {
        match first_where(rows.drop_last(), p) {
            Some(i) => Some(i),
            None => if p(rows.last()) {
                Some(rows.len() - 1)
            } else {
                None
            },
        }
    }
}

/// The row whose description is the given name.
pub open spec fn named(name: Seq<char>) -> spec_fn(InterfaceRowView) -> bool {
    |r: InterfaceRowView| r.description == name
}

/// An 802.11 interface that is up.
pub open spec fn wireless_up() -> spec_fn(InterfaceRowView) -> bool {
    |r: InterfaceRowView| r.if_type == IF_TYPE_IEEE80211 && r.oper_status == IF_OPER_STATUS_UP
}

/// An interface that is up and is not the loopback.
pub open spec fn physical_up() -> spec_fn(InterfaceRowView) -> bool {
    |r: InterfaceRowView| r.if_type != IF_TYPE_SOFTWARE_LOOPBACK && r.oper_status == IF_OPER_STATUS_UP
}

/// An interface that is not the loopback.
pub open spec fn not_loopback() -> spec_fn(InterfaceRowView) -> bool {
    |r: InterfaceRowView| r.if_type != IF_TYPE_SOFTWARE_LOOPBACK
}

/// The received bytes of all interfaces but the loopback, added up.
pub open spec fn sum_rx(rows: Seq<InterfaceRowView>) -> int
    decreases rows.len(),
{
    if rows.len() == 0 {
        0
    } else {
        sum_rx(rows.drop_last()) + if rows.last().if_type != IF_TYPE_SOFTWARE_LOOPBACK {
            rows.last().in_octets as int
        } else {
            0
        }
    }
}

/// The sent bytes of all interfaces but the loopback, added up.
pub open spec fn sum_tx(rows: Seq<InterfaceRowView>) -> int
    decreases rows.len(),
{
    if rows.len() == 0 {
        0
    } else {
        sum_tx(rows.drop_last()) + if rows.last().if_type != IF_TYPE_SOFTWARE_LOOPBACK {
            rows.last().out_octets as int
        } else {
            0
        }
    }
}

/// The row whose counters are watched: the first one named as selected, if a name is
/// selected and some row bears it; else the first wireless interface that is up; else the
/// first non-loopback interface that is up.
pub open spec fn watched_row(rows: Seq<InterfaceRowView>, selected: Option<Seq<char>>) -> Option<int> {
    let by_name = match selected {
        Some(name) => first_where(rows, named(name)),
        None => None,
    };
    if by_name is Some {
        by_name
    } else if first_where(rows, wireless_up()) is Some {
        first_where(rows, wireless_up())
    } else {
        first_where(rows, physical_up())
    }
}

/// The counters of one row.
pub open spec fn row_stats(r: InterfaceRowView) -> TrafficStats {
    TrafficStats { total_rx: r.in_octets, total_tx: r.out_octets }
}

/// The counters shown for a table and a selection: those of the watched row; when no row
/// is watched, the sum over all non-loopback interfaces; and nothing when there are none.
pub open spec fn interface_traffic(rows: Seq<InterfaceRowView>, selected: Option<Seq<char>>) -> Option<
    TrafficStats,
> {
    match watched_row(rows, selected) {
        Some(i) => Some(TrafficStats { total_rx: rows[i].in_octets, total_tx: rows[i].out_octets }),
        None => if first_where(rows, not_loopback()) is Some {
            Some(TrafficStats { total_rx: sum_rx(rows) as u64, total_tx: sum_tx(rows) as u64 })
        } else {
            None
        },
    }
}

proof fn lemma_first_where_step(rows: Seq<InterfaceRowView>, p: spec_fn(InterfaceRowView) -> bool, i: int)
    requires
        0 <= i < rows.len(),
    ensures
        first_where(rows.take(i + 1), p) == match first_where(rows.take(i), p) {
            Some(j) => Some(j),
            None => if p(rows[i]) {
                Some(i)
            } else {
                None
            },
        },
{
    assert(rows.take(i + 1).drop_last() =~= rows.take(i));
}

proof fn lemma_first_where_prefix(rows: Seq<InterfaceRowView>, p: spec_fn(InterfaceRowView) -> bool, k: int)
    requires
        0 <= k <= rows.len(),
        first_where(rows.take(k), p) is Some,
    ensures
        first_where(rows, p) == first_where(rows.take(k), p),
    decreases rows.len() - k,
{
    if k < rows.len() {
        lemma_first_where_step(rows, p, k);
        lemma_first_where_prefix(rows, p, k + 1);
    } else {
        assert(rows.take(k) =~= rows);
    }
}

proof fn lemma_first_where_bounds(rows: Seq<InterfaceRowView>, p: spec_fn(InterfaceRowView) -> bool)
    ensures
        first_where(rows, p) matches Some(i) ==> 0 <= i < rows.len() && p(rows[i]),
    decreases rows.len(),
{
    if rows.len() > 0 {
        lemma_first_where_bounds(rows.drop_last(), p);
    }
}

proof fn lemma_sums_step(rows: Seq<InterfaceRowView>, i: int)
    requires
        0 <= i < rows.len(),
    ensures
        sum_rx(rows.take(i + 1)) == sum_rx(rows.take(i)) + if rows[i].if_type
            != IF_TYPE_SOFTWARE_LOOPBACK {
            rows[i].in_octets as int
        } else {
            0
        },
        sum_tx(rows.take(i + 1)) == sum_tx(rows.take(i)) + if rows[i].if_type
            != IF_TYPE_SOFTWARE_LOOPBACK {
            rows[i].out_octets as int
        } else {
            0
        },
{
    assert(rows.take(i + 1).drop_last() =~= rows.take(i));
}

proof fn lemma_sums_monotone(rows: Seq<InterfaceRowView>, k: int)
    requires
        0 <= k <= rows.len(),
    ensures
        0 <= sum_rx(rows.take(k)) <= sum_rx(rows),
        0 <= sum_tx(rows.take(k)) <= sum_tx(rows),
    decreases rows.len() - k,
{
    if k < rows.len() {
        lemma_sums_step(rows, k);
        lemma_sums_monotone(rows, k + 1);
        lemma_sums_nonneg(rows.take(k));
    } else {
        assert(rows.take(k) =~= rows);
        lemma_sums_nonneg(rows);
    }
}

proof fn lemma_sums_nonneg(rows: Seq<InterfaceRowView>)
    ensures
        sum_rx(rows) >= 0,
        sum_tx(rows) >= 0,
    decreases rows.len(),
{
    if rows.len() > 0 {
        lemma_sums_nonneg(rows.drop_last());
    }
}

/// Whether a row's description equals the name.
fn description_is(row: &InterfaceRow, name: &Vec<char>) -> (b: bool)
    ensures
        b == (row.description@ == name@),
{
    let d = chars_of(row.description.as_str());
    chars_eq(&d, name)
}

/// The optional selection as text.
pub open spec fn selection_view(s: Option<&str>) -> Option<Seq<char>> {
    match s {
        Some(n) => Some(n@),
        None => None,
    }
}

/// The index of the first row that bears the name.
fn find_named(rows: &Vec<InterfaceRow>, name: &Vec<char>) -> (r: Option<usize>)
    ensures
        r matches Some(i) ==> first_where(rows_view(rows@), named(name@)) == Some(i as int),
        r is None ==> first_where(rows_view(rows@), named(name@)) is None,
{
    let ghost rv = rows_view(rows@);
    let n = rows.len();
    for i in 0..n
        invariant
            n == rows.len(),
            rv == rows_view(rows@),
            first_where(rv.take(i as int), named(name@)) is None,
    {
        proof {
            lemma_first_where_step(rv, named(name@), i as int);
        }
        if description_is(&rows[i], name) {
            proof {
                lemma_first_where_prefix(rv, named(name@), i + 1);
            }
            return Some(i);
        }
    }
    assert(rv.take(n as int) =~= rv);
    None
}

/// The index of the first wireless interface that is up.
fn find_wireless_up(rows: &Vec<InterfaceRow>) -> (r: Option<usize>)
    ensures
        r matches Some(i) ==> first_where(rows_view(rows@), wireless_up()) == Some(i as int),
        r is None ==> first_where(rows_view(rows@), wireless_up()) is None,
{
    let ghost rv = rows_view(rows@);
    let n = rows.len();
    for i in 0..n
        invariant
            n == rows.len(),
            rv == rows_view(rows@),
            first_where(rv.take(i as int), wireless_up()) is None,
    {
        proof {
            lemma_first_where_step(rv, wireless_up(), i as int);
        }
        if rows[i].if_type == IF_TYPE_IEEE80211 && rows[i].oper_status == IF_OPER_STATUS_UP {
            proof {
                lemma_first_where_prefix(rv, wireless_up(), i + 1);
            }
            return Some(i);
        }
    }
    assert(rv.take(n as int) =~= rv);
    None
}

/// The index of the first non-loopback interface that is up.
fn find_physical_up(rows: &Vec<InterfaceRow>) -> (r: Option<usize>)
    ensures
        r matches Some(i) ==> first_where(rows_view(rows@), physical_up()) == Some(i as int),
        r is None ==> first_where(rows_view(rows@), physical_up()) is None,
{
    let ghost rv = rows_view(rows@);
    let n = rows.len();
    for i in 0..n
        invariant
            n == rows.len(),
            rv == rows_view(rows@),
            first_where(rv.take(i as int), physical_up()) is None,
    {
        proof {
            lemma_first_where_step(rv, physical_up(), i as int);
        }
        if rows[i].if_type != IF_TYPE_SOFTWARE_LOOPBACK && rows[i].oper_status
            == IF_OPER_STATUS_UP {
            proof {
                lemma_first_where_prefix(rv, physical_up(), i + 1);
            }
            return Some(i);
        }
    }
    assert(rv.take(n as int) =~= rv);
    None
}

/// The index of the row whose counters are watched (see [`watched_row`]), if any.
pub fn watched_interface(rows: &Vec<InterfaceRow>, selected_name: Option<&str>) -> (r: Option<
    usize,
>)
    ensures
        r matches Some(i) ==> i < rows@.len() && watched_row(
            rows_view(rows@),
            selection_view(selected_name),
        ) == Some(i as int),
        r is None ==> watched_row(rows_view(rows@), selection_view(selected_name)) is None,
{
    let ghost rv = rows_view(rows@);
    let mut found: Option<usize> = None;
    match selected_name {
        Some(target_name) => {
            let name = chars_of(target_name);
            found = find_named(rows, &name);
        },
        None => {},
    }
    if found.is_none() {
        found = find_wireless_up(rows);
    }
    if found.is_none() {
        found = find_physical_up(rows);
    }
    proof {
        if selected_name is Some {
            lemma_first_where_bounds(rv, named(selection_view(selected_name)->0));
        }
        lemma_first_where_bounds(rv, wireless_up());
        lemma_first_where_bounds(rv, physical_up());
    }
    found
}

/// The counters to show for an interface table and an optional selected interface name:
/// those of the selected interface if some row bears its name; else those of the first
/// wireless interface that is up; else those of the first other interface that is up;
/// else the sum over all non-loopback interfaces; an error when there is none.
pub fn get_interface_traffic(rows: &Vec<InterfaceRow>, selected_name: Option<&str>) -> (res: Result<
    TrafficStats,
    String,
>)
    requires
        watched_row(rows_view(rows@), selection_view(selected_name)) is None ==> sum_rx(
            rows_view(rows@),
        ) <= u64::MAX && sum_tx(rows_view(rows@)) <= u64::MAX,
    ensures
        res matches Ok(s) ==> interface_traffic(rows_view(rows@), selection_view(selected_name))
            == Some(s),
        res matches Err(e) ==> interface_traffic(rows_view(rows@), selection_view(selected_name))
            is None && e@ == MSG_NO_INTERFACE@,
{
    let ghost rv = rows_view(rows@);
    match watched_interface(rows, selected_name) {
        Some(i) => {
            assert(rv[i as int] == rows@[i as int]@);
            return Ok(TrafficStats { total_rx: rows[i].in_octets, total_tx: rows[i].out_octets });
        },
        None => {},
    }
    let n = rows.len();
    let mut total_rx: u64 = 0;
    let mut total_tx: u64 = 0;
    let mut any = false;
    assert(rv.take(0) =~= Seq::<InterfaceRowView>::empty());
    for i in 0..n
        invariant
            n == rows.len(),
            rv == rows_view(rows@),
            sum_rx(rv) <= u64::MAX,
            sum_tx(rv) <= u64::MAX,
            total_rx as int == sum_rx(rv.take(i as int)),
            total_tx as int == sum_tx(rv.take(i as int)),
            any == first_where(rv.take(i as int), not_loopback()) is Some,
    {
        proof {
            lemma_sums_step(rv, i as int);
            lemma_sums_monotone(rv, i + 1);
            lemma_first_where_step(rv, not_loopback(), i as int);
        }
        assert(rv[i as int] == rows@[i as int]@);
        if rows[i].if_type != IF_TYPE_SOFTWARE_LOOPBACK {
            total_rx = total_rx + rows[i].in_octets;
            total_tx = total_tx + rows[i].out_octets;
            any = true;
        }
    }
    assert(rv.take(n as int) =~= rv);
    if any {
        Ok(TrafficStats { total_rx, total_tx })
    } else {
        Err(string_of(MSG_NO_INTERFACE))
    }
}

/// What one step of the rate meter yields: nothing to show, or the bytes received and
/// sent over a measured interval.
#[derive(Debug, Clone, Copy, PartialEq, Eq, Structural)]
pub enum SpeedSample {
    Idle,
    Measured { rx_bytes: u64, tx_bytes: u64, elapsed_nanos: u64 },
}

/// The mathematical state of a [`SpeedCalculator`]: the last counters and when they
/// were read, and the interface they belong to.
pub struct SpeedState {
    pub last_rx: u64,
    pub last_tx: u64,
    pub last_time: u64,
    pub selected: Option<Seq<char>>,
}

/// The optional interface name as text.
pub open spec fn name_view(s: Option<String>) -> Option<Seq<char>> {
    match s {
        Some(n) => Some(n@),
        None => None,
    }
}

/// The counters of a reading, if it succeeded.
pub open spec fn reading(stats: Result<TrafficStats, String>) -> Option<TrafficStats> {
    match stats {
        Ok(s) => Some(s),
        Err(_) => None,
    }
}

/// The state a meter starts in, given the first reading and the time it was taken.
pub open spec fn speed_start(selected: Option<Seq<char>>, stats: Option<TrafficStats>, now: u64) -> SpeedState {
    match stats {
        Some(s) => SpeedState { last_rx: s.total_rx, last_tx: s.total_tx, last_time: now, selected },
        None => SpeedState { last_rx: 0, last_tx: 0, last_time: now, selected },
    }
}

/// One step of the meter, from its state, the interface now selected, a reading of that
/// interface's counters and the time it was taken, to its next state and what it yields.
/// A change of interface resets the baseline and yields nothing; a failed reading, or an
/// interval under [`MIN_SAMPLE_NANOS`], yields nothing and keeps the state; otherwise the
/// counters' growth (zero where a counter went back) over the interval is yielded and the
/// reading becomes the baseline.
pub open spec fn speed_step(
    old: SpeedState,
    current: Option<Seq<char>>,
    stats: Option<TrafficStats>,
    now: u64,
) -> (SpeedState, SpeedSample) {
    if current != old.selected {
        match stats {
            Some(s) => (
                SpeedState { last_rx: s.total_rx, last_tx: s.total_tx, last_time: now, selected: current },
                SpeedSample::Idle,
            ),
            None => (SpeedState { selected: current, ..old }, SpeedSample::Idle),
        }
    } else {
        match stats {
            None => (old, SpeedSample::Idle),
            Some(s) => {
                let elapsed = if now >= old.last_time {
                    (now - old.last_time) as u64
                } else {
                    0u64
                };
                if elapsed < MIN_SAMPLE_NANOS {
                    (old, SpeedSample::Idle)
                } else {
                    (
                        SpeedState {
                            last_rx: s.total_rx,
                            last_tx: s.total_tx,
                            last_time: now,
                            selected: old.selected,
                        },
                        SpeedSample::Measured {
                            rx_bytes: if s.total_rx >= old.last_rx {
                                (s.total_rx - old.last_rx) as u64
                            } else {
                                0u64
                            },
                            tx_bytes: if s.total_tx >= old.last_tx {
                                (s.total_tx - old.last_tx) as u64
                            } else {
                                0u64
                            },
                            elapsed_nanos: elapsed,
                        },
                    )
                }
            },
        }
    }
}

/// A per-second rate meter over one interface's byte counters. Times are nanoseconds on
/// a monotonic clock.
pub struct SpeedCalculator {
    last_rx: u64,
    last_tx: u64,
    last_time: u64,
    selected_name: Option<String>,
}

impl View for SpeedCalculator {
    type V = SpeedState;

    closed spec fn view(&self) -> SpeedState {
        SpeedState {
            last_rx: self.last_rx,
            last_tx: self.last_tx,
            last_time: self.last_time,
            selected: name_view(self.selected_name),
        }
    }
}

/// Whether two optional names are the same.
fn same_name(a: &Option<String>, b: &Option<String>) -> (r: bool)
    ensures
        r == (name_view(*a) == name_view(*b)),
{
    match (a, b) {
        (Some(x), Some(y)) => *x == *y,
        (None, None) => true,
        _ => false,
    }
}

/// A copy of an optional name.
fn copy_name(a: &Option<String>) -> (r: Option<String>)
    ensures
        r == *a,
{
    match a {
        Some(x) => Some(x.clone()),
        None => None,
    }
}

impl SpeedCalculator {
    /// A meter for the selected interface, starting from a first reading of its counters
    /// (zero when that reading failed) taken at `now_nanos`.
    pub fn new(selected_name: Option<String>, stats: Result<TrafficStats, String>, now_nanos: u64) -> (c: Self)
        ensures
            c@ == speed_start(name_view(selected_name), reading(stats), now_nanos),
    {
        match stats {
            Ok(s) => SpeedCalculator {
                last_rx: s.total_rx,
                last_tx: s.total_tx,
                last_time: now_nanos,
                selected_name,
            },
            Err(_) => SpeedCalculator { last_rx: 0, last_tx: 0, last_time: now_nanos, selected_name },
        }
    }

    /// Takes a reading of the counters of the interface now selected, taken at
    /// `now_nanos`, and yields the traffic since the previous reading.
    pub fn update(&mut self, current_selected: Option<String>, stats: Result<TrafficStats, String>, now_nanos: u64) -> (sample: SpeedSample)
        ensures
            (final(self)@, sample) == speed_step(
                old(self)@,
                name_view(current_selected),
                reading(stats),
                now_nanos,
            ),
    {
        if !same_name(&current_selected, &self.selected_name) {
            self.selected_name = copy_name(&current_selected);
            match stats {
                Ok(s) => {
                    self.last_rx = s.total_rx;
                    self.last_tx = s.total_tx;
                    self.last_time = now_nanos;
                },
                Err(_) => {},
            }
            return SpeedSample::Idle;
        }
        let current = match stats {
            Ok(s) => s,
            Err(_) => return SpeedSample::Idle,
        };
        let elapsed = now_nanos.saturating_sub(self.last_time);
        if elapsed < MIN_SAMPLE_NANOS {
            return SpeedSample::Idle;
        }
        let rx_bytes = current.total_rx.saturating_sub(self.last_rx);
        let tx_bytes = current.total_tx.saturating_sub(self.last_tx);
        self.last_rx = current.total_rx;
        self.last_tx = current.total_tx;
        self.last_time = now_nanos;
        SpeedSample::Measured { rx_bytes, tx_bytes, elapsed_nanos: elapsed }
    }
}

} // verus!

verus! {

/// The counters shown follow a fixed priority: an interface bearing the selected name
/// first; with no such interface, the first wireless interface that is up; then the first
/// other interface that is up.
pub proof fn law_interface_priority(rows: Seq<InterfaceRowView>, selected: Option<Seq<char>>)
    ensures
        selected is Some && first_where(rows, named(selected->0)) is Some ==> interface_traffic(
            rows,
            selected,
        ) == Some(row_stats(rows[first_where(rows, named(selected->0))->0])),
        (selected is None || first_where(rows, named(selected->0)) is None) && first_where(
            rows,
            wireless_up(),
        ) is Some ==> interface_traffic(rows, selected) == Some(
            row_stats(rows[first_where(rows, wireless_up())->0]),
        ),
        (selected is None || first_where(rows, named(selected->0)) is None) && first_where(
            rows,
            wireless_up(),
        ) is None && first_where(rows, physical_up()) is Some ==> interface_traffic(rows, selected)
            == Some(row_stats(rows[first_where(rows, physical_up())->0])),
        interface_traffic(rows, selected) is None <==> first_where(rows, not_loopback()) is None
            && (selected is None || first_where(rows, named(selected->0)) is None),
{
    lemma_first_where_bounds(rows, wireless_up());
    lemma_first_where_bounds(rows, physical_up());
    lemma_first_where_bounds(rows, not_loopback());
    if selected is Some {
        lemma_first_where_bounds(rows, named(selected->0));
    }
    if first_where(rows, physical_up()) is Some {
        let i = first_where(rows, physical_up())->0;
        lemma_first_where_found(rows, not_loopback(), i);
    }
    if first_where(rows, wireless_up()) is Some {
        let i = first_where(rows, wireless_up())->0;
        lemma_first_where_found(rows, not_loopback(), i);
    }
}

proof fn lemma_first_where_found(rows: Seq<InterfaceRowView>, p: spec_fn(InterfaceRowView) -> bool, i: int)
    requires
        0 <= i < rows.len(),
        p(rows[i]),
    ensures
        first_where(rows, p) is Some,
    decreases rows.len(),
{
    if i < rows.len() - 1 {
        lemma_first_where_found(rows.drop_last(), p, i);
    }
}

/// The meter never measures across interfaces: a change of interface yields nothing and
/// starts over from the new interface's reading; a measured interval is at least
/// [`MIN_SAMPLE_NANOS`] long and its bytes are the counters' growth since the baseline,
/// which the reading then replaces.
pub proof fn law_speed_switch_resets(
    old: SpeedState,
    current: Option<Seq<char>>,
    stats: Option<TrafficStats>,
    now: u64,
)
    ensures
        current != old.selected ==> speed_step(old, current, stats, now).1 == SpeedSample::Idle
            && speed_step(old, current, stats, now).0.selected == current,
        speed_step(old, current, stats, now).1 matches SpeedSample::Measured {
            rx_bytes,
            tx_bytes,
            elapsed_nanos,
        } ==> {
            &&& current == old.selected
            &&& stats matches Some(s)
            &&& elapsed_nanos >= MIN_SAMPLE_NANOS
            &&& elapsed_nanos == now - old.last_time
            &&& rx_bytes == if s.total_rx >= old.last_rx {
                s.total_rx - old.last_rx
            } else {
                0
            }
            &&& tx_bytes == if s.total_tx >= old.last_tx {
                s.total_tx - old.last_tx
            } else {
                0
            }
            &&& speed_step(old, current, stats, now).0 == SpeedState {
                last_rx: s.total_rx,
                last_tx: s.total_tx,
                last_time: now,
                selected: old.selected,
            }
        },
{
}

/// After switching to an interface with a successful reading, the next reading of the
/// same interface, taken long enough later, measures exactly the growth since the switch.
pub proof fn law_speed_after_switch(
    old: SpeedState,
    current: Option<Seq<char>>,
    first: TrafficStats,
    t1: u64,
    second: TrafficStats,
    t2: u64,
)
    requires
        current != old.selected,
        t2 >= t1 + MIN_SAMPLE_NANOS,
        second.total_rx >= first.total_rx,
        second.total_tx >= first.total_tx,
    ensures
        ({
            let (mid, s1) = speed_step(old, current, Some(first), t1);
            let (_, s2) = speed_step(mid, current, Some(second), t2);
            &&& s1 == SpeedSample::Idle
            &&& s2 == SpeedSample::Measured {
                rx_bytes: (second.total_rx - first.total_rx) as u64,
                tx_bytes: (second.total_tx - first.total_tx) as u64,
                elapsed_nanos: (t2 - t1) as u64,
            }
        }),
{
}

/// Every reading of the same interface taken at least [`MIN_SAMPLE_NANOS`] after the
/// baseline is measured, whatever the counters read: the bytes are the counters' growth
/// since the baseline (zero for a counter that went back, as when the automatic choice
/// moves to an interface with lower counters), the interval is the time since the
/// baseline, and the reading becomes the new baseline.
pub proof fn law_speed_measures_each_interval(old: SpeedState, stats: TrafficStats, now: u64)
    requires
        now >= old.last_time + MIN_SAMPLE_NANOS,
    ensures
        speed_step(old, old.selected, Some(stats), now) == (
            SpeedState {
                last_rx: stats.total_rx,
                last_tx: stats.total_tx,
                last_time: now,
                selected: old.selected,
            },
            SpeedSample::Measured {
                rx_bytes: if stats.total_rx >= old.last_rx {
                    (stats.total_rx - old.last_rx) as u64
                } else {
                    0u64
                },
                tx_bytes: if stats.total_tx >= old.last_tx {
                    (stats.total_tx - old.last_tx) as u64
                } else {
                    0u64
                },
                elapsed_nanos: (now - old.last_time) as u64,
            },
        ),
{
}

/// Two readings of the same interface in a row, each at least [`MIN_SAMPLE_NANOS`] after
/// the one before: the second measures the growth from the first reading, whatever the
/// baseline was before it, so a meter whose counters jumped down starts over at once.
pub proof fn law_speed_rebases_on_each_reading(
    old: SpeedState,
    first: TrafficStats,
    t1: u64,
    second: TrafficStats,
    t2: u64,
)
    requires
        t1 >= old.last_time + MIN_SAMPLE_NANOS,
        t2 >= t1 + MIN_SAMPLE_NANOS,
    ensures
        ({
            let (mid, s1) = speed_step(old, old.selected, Some(first), t1);
            let (_, s2) = speed_step(mid, old.selected, Some(second), t2);
            &&& s1 is Measured
            &&& s2 == SpeedSample::Measured {
                rx_bytes: if second.total_rx >= first.total_rx {
                    (second.total_rx - first.total_rx) as u64
                } else {
                    0u64
                },
                tx_bytes: if second.total_tx >= first.total_tx {
                    (second.total_tx - first.total_tx) as u64
                } else {
                    0u64
                },
                elapsed_nanos: (t2 - t1) as u64,
            }
        }),
{
    law_speed_measures_each_interval(old, first, t1);
    let mid = speed_step(old, old.selected, Some(first), t1).0;
    law_speed_measures_each_interval(mid, second, t2);
}

/// After a switch of interface with a successful reading, the next reading of the same
/// interface taken long enough later measures the counters' growth since the switch,
/// whatever they read (zero for a counter that went back).
pub proof fn law_speed_after_switch_any_counters(
    old: SpeedState,
    current: Option<Seq<char>>,
    first: TrafficStats,
    t1: u64,
    second: TrafficStats,
    t2: u64,
)
    requires
        current != old.selected,
        t2 >= t1 + MIN_SAMPLE_NANOS,
    ensures
        ({
            let (mid, s1) = speed_step(old, current, Some(first), t1);
            let (_, s2) = speed_step(mid, current, Some(second), t2);
            &&& s1 == SpeedSample::Idle
            &&& s2 == SpeedSample::Measured {
                rx_bytes: if second.total_rx >= first.total_rx {
                    (second.total_rx - first.total_rx) as u64
                } else {
                    0u64
                },
                tx_bytes: if second.total_tx >= first.total_tx {
                    (second.total_tx - first.total_tx) as u64
                } else {
                    0u64
                },
                elapsed_nanos: (t2 - t1) as u64,
            }
        }),
{
    let mid = speed_step(old, current, Some(first), t1).0;
    law_speed_measures_each_interval(mid, second, t2);
}

} // verus!

verus! {

/// Choosing an interface name that no row bears shows the same counters as choosing none:
/// the automatic priority takes over.
pub proof fn law_unknown_interface_falls_back(rows: Seq<InterfaceRowView>, name: Seq<char>)
    requires
        first_where(rows, named(name)) is None,
    ensures
        interface_traffic(rows, Some(name)) == interface_traffic(rows, None),
{
}

/// How the day of the running traffic totals relates to today's date.
#[derive(Debug, Clone, Copy, PartialEq, Eq, Structural)]
pub enum DayChange {
    /// No day recorded yet: record today.
    Start,
    /// Still the recorded day.
    Same,
    /// A new day: today's total becomes yesterday's, and today starts from zero.
    NewDay,
}

/// Compares the recorded day of the traffic totals with today's date.
pub fn day_change(recorded: &String, today: &String) -> (c: DayChange)
    ensures
        recorded@.len() == 0 ==> c == DayChange::Start,
        recorded@.len() > 0 && recorded@ == today@ ==> c == DayChange::Same,
        recorded@.len() > 0 && recorded@ != today@ ==> c == DayChange::NewDay,
{
    if recorded.as_str().is_empty() {
        DayChange::Start
    } else if *recorded == *today {
        DayChange::Same
    } else {
        DayChange::NewDay
    }
}

} // verus!

verus! {

/// The quiet time after a traffic alarm, in nanoseconds, during which no other alarm is
/// raised.
pub const ALARM_QUIET_NANOS: u64 = 30_000_000_000;

/// Whether an alarm raised at `now` would come after the quiet time of the previous one
/// (the time since it counting as zero if the clock reads earlier).
pub open spec fn alarm_due_spec(last_alarm_nanos: Option<u64>, now_nanos: u64) -> bool {
    match last_alarm_nanos {
        None => true,
        Some(t) => now_nanos > t && now_nanos - t > ALARM_QUIET_NANOS,
    }
}

/// Whether the traffic alarm may sound now: always for the first alarm, and otherwise
/// only once more than [`ALARM_QUIET_NANOS`] have passed since the previous one.
pub fn alarm_due(last_alarm_nanos: Option<u64>, now_nanos: u64) -> (due: bool)
    ensures
        due == alarm_due_spec(last_alarm_nanos, now_nanos),
{
    match last_alarm_nanos {
        None => true,
        Some(t) => now_nanos.saturating_sub(t) > ALARM_QUIET_NANOS,
    }
}

/// At most one alarm per quiet time: once an alarm sounds at `t1`, the next one sounds
/// more than [`ALARM_QUIET_NANOS`] later.
pub proof fn law_one_alarm_per_quiet_time(t1: u64, t2: u64)
    requires
        alarm_due_spec(Some(t1), t2),
    ensures
        t2 > t1 + ALARM_QUIET_NANOS,
{
}

} // verus!
