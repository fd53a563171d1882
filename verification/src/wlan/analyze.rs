//! A scan seen against the current association, in brief.
//!
//! This is a summary only. Conclusions about a scan, such as contention on a
//! channel, a weak signal or a better access point to roam to, are not drawn
//! here.

use crate::text;
use crate::text::copied;
use crate::wlan::bss::BssEntry;
use crate::wlan::CurrentConnection;
use vstd::prelude::*;

verus! {

/// A summary of a scan, without conclusions.
#[derive(Debug, PartialEq, Eq)]
pub struct Analysis {
    /// How many BSS entries the scan has.
    pub bss_count: usize,
    /// The access point of the current association, where there is one.
    pub associated_bssid: Option<String>,
}

/// Sum up a scan against the association, if any. No findings are drawn from
/// it.
pub fn analyze(bss: &Vec<BssEntry>, connection: Option<&CurrentConnection>) -> (r: Analysis)
    ensures
        r.bss_count == bss@.len(),
        text::opt_text(r.associated_bssid) == (match connection {
            Some(c) => text::opt_text(c.bssid),
            None => None,
        }),
{
    Analysis {
        bss_count: bss.len(),
        associated_bssid: match connection {
            Some(c) => copied(&c.bssid),
            None => None,
        },
    }
}

} // verus!
