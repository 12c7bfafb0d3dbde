//! The orchestrator's construction: one (provider, grabber) pair per parsed
//! descriptor, all sharing the interface name, and one persistence store
//! covering every provider's key, all-or-nothing. The task spawning and the
//! channel fan-in around these pairs run outside; each pair's decisions are
//! the verified step functions of its provider and grabber.
use vstd::prelude::*;

use crate::dyn_dns::{PersistsToFile, Provider};
use crate::ip_grabber::IpGrabber;
use crate::persistence::Persistence;
use crate::{ip_grabber, persistence};

verus! {

/// One pipeline's pair: the provider and the grabber that feeds it.
pub type DynGrabber = (Provider, IpGrabber);

/// Why the orchestrator could not be built.
#[derive(Debug)]
pub enum Error {
    PersistenceError(persistence::Error),
    GrabberError(ip_grabber::Error),
}

/// The orchestrator's state: the shared store and the pipeline pairs.
pub struct Runner {
    pub pers: Persistence,
    pub dyn_dnss: Vec<DynGrabber>,
}

impl Runner {
    pub open spec fn wf(&self) -> bool {
        &&& self.pers.wf()
        &&& self.pers.file_paths@.len() == self.dyn_dnss@.len()
        &&& forall|i: int|
            0 <= i < self.dyn_dnss@.len() ==> (#[trigger] self.dyn_dnss@[i]).0.wf() && (
            self.pers.file_paths@[i])@ == self.dyn_dnss@[i].0.key_spec()
    }

    /// Builds one (provider, grabber) pair per descriptor, in order, each
    /// grabber watching `iface` with its provider's family and cadence and
    /// an empty cache, and a store keyed by every provider's persistence
    /// key. With no providers the store is refused and nothing is built.
    pub fn new(iface: String, dyn_dnss: Vec<Provider>) -> (r: Result<Runner, Error>)
        requires
            forall|i: int| 0 <= i < dyn_dnss@.len() ==> (#[trigger] dyn_dnss@[i]).wf(),
        ensures
            dyn_dnss@.len() == 0 ==> (r matches Err(e) && e is PersistenceError),
            dyn_dnss@.len() > 0 ==> (r matches Ok(run) && run.wf() && run.dyn_dnss@.len()
                == dyn_dnss@.len() && (forall|i: int|
                0 <= i < dyn_dnss@.len() ==> (#[trigger] run.dyn_dnss@[i]).0 == dyn_dnss@[i]
                    && run.dyn_dnss@[i].1.iface@ == iface@ && run.dyn_dnss@[i].1.ip_version
                    == dyn_dnss@[i].ip_version_spec() && run.dyn_dnss@[i].1.poll_secs
                    == dyn_dnss@[i].poll_secs_spec() && run.dyn_dnss@[i].1.last_ip is None)),
    {
        let ghost orig = dyn_dnss@;
        let mut names: Vec<String> = Vec::new();
        let mut i: usize = 0;
        let n = dyn_dnss.len();
        while i < n
            invariant
                0 <= i <= n,
                n == dyn_dnss@.len(),
                dyn_dnss@ == orig,
                forall|k: int| 0 <= k < orig.len() ==> (#[trigger] orig[k]).wf(),
                names@.len() == i,
                forall|k: int| 0 <= k < i ==> (#[trigger] names@[k])@ == orig[k].key_spec(),
            decreases n - i,
        {
            let name = String::from_str(dyn_dnss[i].file_name());
            names.push(name);
            i = i + 1;
        }
        let pers = match Persistence::new(names) {
            Ok(p) => p,
            Err(e) => {
                return Err(Error::PersistenceError(e));
            },
        };
        let mut rest = dyn_dnss;
        let mut pairs: Vec<DynGrabber> = Vec::new();
        let mut k: usize = 0;
        while k < n
            invariant
                0 <= k <= n,
                n == orig.len(),
                rest@ =~= orig.skip(k as int),
                pairs@.len() == k,
                forall|j: int|
                    0 <= j < k ==> (#[trigger] pairs@[j]).0 == orig[j] && pairs@[j].1.iface@
                        == iface@ && pairs@[j].1.ip_version == orig[j].ip_version_spec()
                        && pairs@[j].1.poll_secs == orig[j].poll_secs_spec() && pairs@[j].1.last_ip
                        is None,
            decreases n - k,
        {
            assert(rest@.len() > 0);
            let dns = rest.remove(0);
            assert(dns == orig[k as int]);
            let ipv = dns.get_ip_version();
            let ps = dns.get_poll_secs();
            let grabber = match IpGrabber::new(iface.clone(), ipv, ps) {
                Ok(g) => g,
                Err(e) => {
                    return Err(Error::GrabberError(e));
                },
            };
            pairs.push((dns, grabber));
            proof {
                assert(rest@ =~= orig.skip(k as int + 1));
            }
            k = k + 1;
        }
        Ok(Runner { pers, dyn_dnss: pairs })
    }
}

} // verus!
