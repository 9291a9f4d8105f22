use std::collections::HashMap;
use std::sync::{Arc, Mutex};

use vstd::prelude::*;

use crate::api::{Error, Result, Sender};

verus! {

/// Relies on std::sync::Mutex: carried through as an opaque value.
#[verifier::external_type_specification]
#[verifier::external_body]
#[verifier::reject_recursive_types(T)]
pub struct ExMutex<T: ?Sized>(std::sync::Mutex<T>);

/// Relies on std::sync::Mutex::new: an unlocked mutex around `t`.
pub assume_specification<T>[ std::sync::Mutex::<T>::new ](t: T) -> std::sync::Mutex<T>;

/// An in-memory network: for each address, the words waiting to be read
/// there.
pub type Network = Arc<Mutex<HashMap<String, Vec<u32>>>>;

/// A network with no words in flight.
pub fn network() -> Network {
    Arc::new(Mutex::new(HashMap::with_capacity(32)))
}

/// One end of a connection over a [`Network`]: reads at `src`, writes to
/// `dst`.
pub struct Probe {
    src: String,
    dst: String,
    net: Network,
}

/// Relies on std::sync::Mutex::lock: appends `msg` to the words waiting at
/// `dst`; fails only where the lock is poisoned.
#[verifier::external_body]
fn deliver(net: &Network, dst: &String, msg: u32) -> Result<()> {
    let mut guard = net.lock().map_err(|e| Error::Other(format!("{e}")))?;
    guard.entry(dst.clone()).or_default().push(msg);
    Ok(())
}

/// Relies on std::sync::Mutex::lock: takes the last word waiting at `src`,
/// if any; fails only where the lock is poisoned.
#[verifier::external_body]
fn collect(net: &Network, src: &String) -> Result<Option<u32>> {
    let mut guard = net.lock().map_err(|e| Error::Other(format!("{e}")))?;
    Ok(guard.get_mut(src).and_then(|queue| queue.pop()))
}

impl Probe {
    /// The end that reads at `addr.0` and writes to `addr.1` on the network
    /// `addr.2`.
    pub fn open(addr: &(String, String, Network)) -> (r: Result<Self>)
        ensures
            r matches Ok(p) && p.src()@ == addr.0@ && p.dst()@ == addr.1@,
    {
        let (src, dst, net) = addr;
        Ok(Probe { src: src.clone(), dst: dst.clone(), net: net.clone() })
    }

    /// The address this end reads at.
    pub closed spec fn src(&self) -> String {
        self.src
    }

    /// The address this end writes to.
    pub closed spec fn dst(&self) -> String {
        self.dst
    }

    /// Takes the next word waiting at this end, if any.
    pub fn recv_word(&self) -> Result<Option<u32>> {
        collect(&self.net, &self.src)
    }
}

impl Sender<u32> for Probe {
    fn send(&self, msg: &u32) -> Result<()> {
        deliver(&self.net, &self.dst, *msg)
    }
}

} // verus!
