//! The application catalog: its records and the client that locates the
//! remote catalog.

use vstd::prelude::*;

verus! {

/// One application of the catalog.
#[derive(Clone, Debug, PartialEq, Eq)]
pub struct App {
    pub id: i32,
    pub name: String,
}

impl App {
    pub fn new(name: String, id: i32) -> (r: App)
        ensures
            r.id == id,
            r.name == name,
    {
        App { id, name }
    }
}

/// The applications of a catalog listing.
#[derive(Clone, Debug, PartialEq, Eq)]
pub struct AppList {
    pub apps: Vec<App>,
}

/// A catalog listing as the remote service returns it.
#[derive(Clone, Debug, PartialEq, Eq)]
pub struct Response {
    pub applist: AppList,
}

/// The path of the application list below the catalog service's address.
pub open spec fn applist_path() -> Seq<char> {
    "/ISteamApps/GetAppList/v2/"@
}

/// The client of the remote catalog service.
pub struct Client {
    url: String,
}

impl Client {
    /// The address of the catalog service.
    pub closed spec fn base_url(&self) -> Seq<char> {
        self.url@
    }

    pub fn new(url: &str) -> (r: Client)
        ensures
            r.base_url() == url@,
    {
        Client { url: String::from_str(url) }
    }

    pub fn url(&self) -> (r: &str)
        ensures
            r@ == self.base_url(),
    {
        self.url.as_str()
    }

    /// The address from which the whole application list is fetched.
    pub fn applist_url(&self) -> (r: String)
        ensures
            r@ == self.base_url() + applist_path(),
    {
        let mut out = self.url.clone();
        out.append("/ISteamApps/GetAppList/v2/");
        out
    }
}

} // verus!
