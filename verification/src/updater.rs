//! What the update checker remembers, and what each check leaves behind.
//!
//! The checks themselves run against the update service in the application;
//! this module decides what is cached and what the window is told.

use vstd::prelude::*;
use crate::clipboard::opt_view;

verus! {

/// An update the service offers.
#[derive(Debug, Clone)]
pub struct UpdateInfo {
    pub version: String,
    /// Release notes; empty when the service gave none.
    pub body: String,
}

/// What one check against the update service found.
pub enum CheckOutcome {
    /// An update to `version`, with its release notes if any.
    Found { version: String, body: Option<String> },
    /// The running build is the latest.
    UpToDate,
    /// The check failed with this message.
    Failed(String),
}

/// The checker's state between checks.
pub struct UpdateState {
    /// The update found by the last successful check, if it found one.
    pub available: Option<UpdateInfo>,
    /// Whether a check is running.
    pub checking: bool,
}

pub open spec fn info_view(i: Option<UpdateInfo>) -> Option<(Seq<char>, Seq<char>)> {
    match i {
        Some(u) => Some((u.version@, u.body@)),
        None => None,
    }
}

fn clone_info(i: &Option<UpdateInfo>) -> (c: Option<UpdateInfo>)
    ensures
        info_view(c) == info_view(*i),
{
    match i {
        Some(u) => Some(UpdateInfo { version: u.version.clone(), body: u.body.clone() }),
        None => None,
    }
}

impl UpdateState {
    pub fn new() -> (s: Self)
        ensures
            s.available is None,
            !s.checking,
    {
        UpdateState { available: None, checking: false }
    }

    /// Starts a check unless one is already running. While one runs, a second
    /// request is answered from the cache: `Some` of what is cached, and no new
    /// check starts.
    pub fn begin_check(&mut self) -> (cached: Option<Option<UpdateInfo>>)
        ensures
            old(self).checking ==> (cached matches Some(c) && info_view(c) == info_view(
                old(self).available,
            )),
            !old(self).checking ==> cached is None,
            final(self).checking,
            info_view(final(self).available) == info_view(old(self).available),
    {
        if self.checking {
            return Some(clone_info(&self.available));
        }
        self.checking = true;
        None
    }

    /// Records what a check found and ends it. An update found is cached and
    /// returned, with empty notes when there were none; "up to date" clears the
    /// cache; a failure leaves the cache as it was and returns the message.
    pub fn finish_check(&mut self, outcome: CheckOutcome) -> (r: Result<Option<UpdateInfo>, String>)
        ensures
            !final(self).checking,
            match outcome {
                CheckOutcome::Found { version, body } => {
                    let expected = Some(
                        (
                            version@,
                            match body {
                                Some(b) => b@,
                                None => Seq::<char>::empty(),
                            },
                        ),
                    );
                    &&& info_view(final(self).available) == expected
                    &&& r matches Ok(i) && info_view(i) == expected
                },
                CheckOutcome::UpToDate => final(self).available is None && (r matches Ok(i)
                    && i is None),
                CheckOutcome::Failed(e) => info_view(final(self).available) == info_view(
                    old(self).available,
                ) && (r matches Err(m) && m@ == e@),
            },
    {
        self.checking = false;
        match outcome {
            CheckOutcome::Found { version, body } => {
                let body = match body {
                    Some(b) => b,
                    None => String::new(),
                };
                let info = UpdateInfo { version, body };
                let returned = UpdateInfo { version: info.version.clone(), body: info.body.clone() };
                self.available = Some(info);
                Ok(Some(returned))
            },
            CheckOutcome::UpToDate => {
                self.available = None;
                Ok(None)
            },
            CheckOutcome::Failed(e) => Err(e),
        }
    }

    /// What the window gets when it asks for the available update: the cached
    /// one if there is one; `None` means a check has to be made.
    pub fn cached_update(&self) -> (cached: Option<UpdateInfo>)
        ensures
            info_view(cached) == info_view(self.available),
    {
        clone_info(&self.available)
    }
}

} // verus!
