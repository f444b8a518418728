//! The configured static routes and their live status.
use vstd::prelude::*;

verus! {

/// Whether a configured route is live in the system routing table.
#[derive(Debug, PartialEq)]
pub enum RouteStatus {
    Inactive,
    Verifying,
    Active,
    Failed(String),
}

/// The mathematical value of a [`RouteStatus`].
pub enum RouteStatusView {
    Inactive,
    Verifying,
    Active,
    Failed(Seq<char>),
}

impl View for RouteStatus {
    type V = RouteStatusView;

    open spec fn view(&self) -> RouteStatusView {
        match self {
            RouteStatus::Inactive => RouteStatusView::Inactive,
            RouteStatus::Verifying => RouteStatusView::Verifying,
            RouteStatus::Active => RouteStatusView::Active,
            RouteStatus::Failed(e) => RouteStatusView::Failed(e@),
        }
    }
}

impl Clone for RouteStatus {
    fn clone(&self) -> (r: Self)
        ensures
            r == *self,
    {
        match self {
            RouteStatus::Inactive => RouteStatus::Inactive,
            RouteStatus::Verifying => RouteStatus::Verifying,
            RouteStatus::Active => RouteStatus::Active,
            RouteStatus::Failed(e) => RouteStatus::Failed(e.clone()),
        }
    }
}

impl Default for RouteStatus {
    fn default() -> (r: Self)
        ensures
            r == RouteStatus::Inactive,
    {
        RouteStatus::Inactive
    }
}

/// One configured static route: `route add <target> mask <mask> <gateway>`.
#[derive(Debug)]
pub struct RouteItem {
    pub id: String,
    pub name: String,
    pub target: String,
    pub mask: String,
    pub gateway: String,
    pub enabled: bool,
    pub status: RouteStatus,
}

/// The mathematical value of a [`RouteItem`].
pub struct RouteItemView {
    pub id: Seq<char>,
    pub name: Seq<char>,
    pub target: Seq<char>,
    pub mask: Seq<char>,
    pub gateway: Seq<char>,
    pub enabled: bool,
    pub status: RouteStatusView,
}

impl View for RouteItem {
    type V = RouteItemView;

    open spec fn view(&self) -> RouteItemView {
        RouteItemView {
            id: self.id@,
            name: self.name@,
            target: self.target@,
            mask: self.mask@,
            gateway: self.gateway@,
            enabled: self.enabled,
            status: self.status@,
        }
    }
}

impl Clone for RouteItem {
    fn clone(&self) -> (r: Self)
        ensures
            r == *self,
    {
        RouteItem {
            id: self.id.clone(),
            name: self.name.clone(),
            target: self.target.clone(),
            mask: self.mask.clone(),
            gateway: self.gateway.clone(),
            enabled: self.enabled,
            status: self.status.clone(),
        }
    }
}

/// The views of a list of routes.
pub open spec fn routes_view(routes: Seq<RouteItem>) -> Seq<RouteItemView> {
    routes.map_values(|r: RouteItem| r@)
}

} // verus!
