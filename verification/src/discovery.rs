//! Device discovery: filtering enumerated ports and selecting one device.
//!
//! Enumeration itself is operating-system work and happens outside the
//! library; it hands in one `PortCandidate` per port. The library keeps the
//! candidates whose USB identity matches the device's fixed vendor and
//! product ids, and selects among them by an optional port-path selector and
//! an optional device-identity selector. Zero remaining candidates fail with
//! `NotFound`; several remaining candidates fail with `Ambiguous`, which
//! carries them all.

use vstd::prelude::*;

use crate::{USB_PID, USB_VID};

verus! {

/// One enumerated serial port: its path, its reported USB identity, and the
/// device identity read from it, best-effort (`None` stands for a failed
/// read, which never aborts discovery).
#[derive(Debug)]
pub struct PortCandidate {
    pub port_name: Vec<u8>,
    pub vid: u16,
    pub pid: u16,
    pub identity: Option<Vec<u8>>,
}

/// Selection failed: no device, or more than one and no way to tell.
#[derive(Debug)]
pub enum DiscoveryError {
    /// No candidate was left.
    NotFound,
    /// More than one candidate was left; all of them are carried here.
    Ambiguous(Vec<PortCandidate>),
}

/// The candidate reports the device's fixed USB vendor and product ids.
pub open spec fn is_usmu(c: PortCandidate) -> bool {
    c.vid == USB_VID && c.pid == USB_PID
}

/// The candidate passes both selectors: exact path equality where a port
/// selector is given, and exact identity equality where an identity selector
/// is given (a candidate whose identity could not be read never passes an
/// identity selector).
pub open spec fn matches_selectors(
    c: PortCandidate,
    port_selector: Option<Vec<u8>>,
    identity_selector: Option<Vec<u8>>,
) -> bool {
    &&& (port_selector matches Some(sel) ==> c.port_name@ == sel@)
    &&& (identity_selector matches Some(sel) ==> (c.identity matches Some(id) && id@ == sel@))
}

/// The subsequence of candidates that report the device's USB identity,
/// in order.
pub open spec fn usmu_filter(s: Seq<PortCandidate>) -> Seq<PortCandidate>
    decreases s.len(),
{
    if s.len() == 0 {
        Seq::empty()
    } else {
        let rest = usmu_filter(s.drop_last());
        if is_usmu(s.last()) {
            rest.push(s.last())
        } else {
            rest
        }
    }
}

/// The subsequence of candidates that pass both selectors, in order.
pub open spec fn selector_filter(
    s: Seq<PortCandidate>,
    port_selector: Option<Vec<u8>>,
    identity_selector: Option<Vec<u8>>,
) -> Seq<PortCandidate>
    decreases s.len(),
{
    if s.len() == 0 {
        Seq::empty()
    } else {
        let rest = selector_filter(s.drop_last(), port_selector, identity_selector);
        if matches_selectors(s.last(), port_selector, identity_selector) {
            rest.push(s.last())
        } else {
            rest
        }
    }
}

/// Byte-for-byte equality of two byte vectors.
fn bytes_eq(a: &Vec<u8>, b: &Vec<u8>) -> (r: bool)
    ensures
        r == (a@ == b@),
{
    if a.len() != b.len() {
        return false;
    }
    let n = a.len();
    let mut i: usize = 0;
    while i < n
        invariant
            i <= n,
            n == a@.len() == b@.len(),
            forall|j: int| 0 <= j < i ==> a@[j] == b@[j],
        decreases n - i,
    {
        if a[i] != b[i] {
            return false;
        }
        i = i + 1;
    }
    proof {
        assert(a@ =~= b@);
    }
    true
}

/// Keeps the candidates whose USB identity is the device's: vendor id 1155
/// and product id 22336.
pub fn filter_usmu_ports(ports: Vec<PortCandidate>) -> (r: Vec<PortCandidate>)
    ensures
        r@ == usmu_filter(ports@),
{
    let mut rest = ports;
    let mut kept: Vec<PortCandidate> = Vec::new();
    let ghost all = rest@;
    let total = rest.len();
    let mut i: usize = 0;
    while rest.len() > 0
        invariant
            i + rest@.len() == total == all.len(),
            rest@ == all.skip(i as int),
            kept@ == usmu_filter(all.take(i as int)),
        decreases rest@.len(),
    {
        let c = rest.remove(0);
        proof {
            assert(all.skip(i as int)[0] == all[i as int]);
            assert(c == all[i as int]);
            assert(all.take(i + 1).drop_last() =~= all.take(i as int));
            assert(all.take(i + 1).last() == all[i as int]);
            assert(rest@ =~= all.skip(i + 1));
        }
        if c.vid == USB_VID && c.pid == USB_PID {
            kept.push(c);
        }
        i = i + 1;
    }
    proof {
        assert(all.take(all.len() as int) =~= all);
    }
    kept
}

/// Selects the device to use among the remaining candidates, per the given
/// selectors:
/// - zero candidates fail with `NotFound`;
/// - exactly one candidate is selected regardless of the selectors;
/// - more than one candidate with no selector given fails with `Ambiguous`,
///   carrying them all;
/// - otherwise the selectors filter the candidates, and exactly one must be
///   left: none fails with `NotFound`, several fail with `Ambiguous`
///   carrying those left.
pub fn select(
    candidates: Vec<PortCandidate>,
    port_selector: Option<Vec<u8>>,
    identity_selector: Option<Vec<u8>>,
) -> (r: Result<PortCandidate, DiscoveryError>)
    ensures
        ({
            let flt = selector_filter(candidates@, port_selector, identity_selector);
            &&& candidates@.len() == 0 ==> (r matches Err(DiscoveryError::NotFound))
            &&& candidates@.len() == 1 ==> ({
                &&& r matches Ok(c)
                &&& c == candidates@[0]
            })
            &&& (candidates@.len() > 1 && port_selector is None && identity_selector is None)
                ==> ({
                &&& r matches Err(DiscoveryError::Ambiguous(l))
                &&& l@ == candidates@
            })
            &&& (candidates@.len() > 1 && !(port_selector is None && identity_selector is None))
                ==> {
                &&& flt.len() == 0 ==> (r matches Err(DiscoveryError::NotFound))
                &&& flt.len() == 1 ==> ({
                    &&& r matches Ok(c)
                    &&& c == flt[0]
                })
                &&& flt.len() > 1 ==> ({
                    &&& r matches Err(DiscoveryError::Ambiguous(l))
                    &&& l@ == flt
                })
            }
        }),
{
    if candidates.len() == 0 {
        return Err(DiscoveryError::NotFound);
    }
    let mut rest = candidates;
    if rest.len() == 1 {
        let c = rest.remove(0);
        return Ok(c);
    }
    if port_selector.is_none() && identity_selector.is_none() {
        return Err(DiscoveryError::Ambiguous(rest));
    }
    let ghost all = rest@;
    let mut kept: Vec<PortCandidate> = Vec::new();
    let total = rest.len();
    let mut i: usize = 0;
    while rest.len() > 0
        invariant
            i + rest@.len() == total == all.len(),
            rest@ == all.skip(i as int),
            kept@ == selector_filter(all.take(i as int), port_selector, identity_selector),
        decreases rest@.len(),
    {
        let c = rest.remove(0);
        proof {
            assert(all.skip(i as int)[0] == all[i as int]);
            assert(c == all[i as int]);
            assert(all.take(i + 1).drop_last() =~= all.take(i as int));
            assert(all.take(i + 1).last() == all[i as int]);
            assert(rest@ =~= all.skip(i + 1));
        }
        let port_ok = match &port_selector {
            Some(sel) => bytes_eq(&c.port_name, sel),
            None => true,
        };
        let id_ok = match &identity_selector {
            Some(sel) => match &c.identity {
                Some(id) => bytes_eq(id, sel),
                None => false,
            },
            None => true,
        };
        proof {
            assert((port_ok && id_ok) == matches_selectors(c, port_selector, identity_selector));
        }
        if port_ok && id_ok {
            kept.push(c);
        }
        i = i + 1;
    }
    proof {
        assert(all.take(all.len() as int) =~= all);
    }
    if kept.len() == 0 {
        Err(DiscoveryError::NotFound)
    } else if kept.len() == 1 {
        let c = kept.remove(0);
        Ok(c)
    } else {
        Err(DiscoveryError::Ambiguous(kept))
    }
}

/// The connection selectors a user may give: an exact port path, an exact
/// device identity, either, both or none.
#[derive(Debug)]
pub struct SmuConnectionParameter {
    pub port: Option<Vec<u8>>,
    pub serial_number: Option<Vec<u8>>,
}

impl SmuConnectionParameter {
    /// Selects the device among the candidates by these selectors.
    pub fn select(self, candidates: Vec<PortCandidate>) -> (r: Result<
        PortCandidate,
        DiscoveryError,
    >)
        ensures
            ({
                let flt = selector_filter(candidates@, self.port, self.serial_number);
                &&& candidates@.len() == 0 ==> (r matches Err(DiscoveryError::NotFound))
                &&& candidates@.len() == 1 ==> ({
                    &&& r matches Ok(c)
                    &&& c == candidates@[0]
                })
                &&& (candidates@.len() > 1 && self.port is None && self.serial_number is None)
                    ==> ({
                    &&& r matches Err(DiscoveryError::Ambiguous(l))
                    &&& l@ == candidates@
                })
                &&& (candidates@.len() > 1 && !(self.port is None && self.serial_number is None))
                    ==> {
                    &&& flt.len() == 0 ==> (r matches Err(DiscoveryError::NotFound))
                    &&& flt.len() == 1 ==> ({
                        &&& r matches Ok(c)
                        &&& c == flt[0]
                    })
                    &&& flt.len() > 1 ==> ({
                        &&& r matches Err(DiscoveryError::Ambiguous(l))
                        &&& l@ == flt
                    })
                }
            }),
    {
        select(candidates, self.port, self.serial_number)
    }
}

} // verus!
