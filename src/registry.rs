//! The port registry: a bounded map from port names to the endpoint of the
//! thread listening on each port.
use vstd::prelude::*;
use crate::abi::{self, Connect, Endpoint, Listen, PortId};

verus! {

/// Most ports that can be open at once.
pub const PORT_CAPACITY: usize = 8;

/// A fixed-capacity hash map from port names to endpoints.
#[verifier::external_body]
pub struct PortMap {
    inner: heapless::FnvIndexMap<PortId, Endpoint, 8>,
}

pub open spec fn no_ports() -> Map<PortId, Endpoint> {
    Map::empty()
}

/// The port-to-endpoint pairs a port map holds.
pub uninterp spec fn port_entries(m: PortMap) -> Map<PortId, Endpoint>;

/// Relies on heapless::IndexMap::new: the map starts empty.
#[verifier::external_body]
fn port_map_new() -> (r: PortMap)
    ensures
        port_entries(r) == no_ports(),
{
    PortMap { inner: heapless::FnvIndexMap::new() }
}

/// Relies on heapless::IndexMap::len: the number of pairs held, never above
/// the capacity of 8.
#[verifier::external_body]
fn port_map_len(m: &PortMap) -> (r: usize)
    ensures
        r == port_entries(*m).dom().len(),
        r <= 8,
{
    m.inner.len()
}

/// Relies on heapless::IndexMap::get: the endpoint stored under `port`.
#[verifier::external_body]
fn port_map_get(m: &PortMap, port: &PortId) -> (r: Option<Endpoint>)
    ensures
        port_entries(*m).dom().contains(*port) ==> r == Some(port_entries(*m)[*port]),
        !port_entries(*m).dom().contains(*port) ==> r is None,
{
    m.inner.get(port).copied()
}

/// Relies on heapless::IndexMap::insert: stores the pair unless the map is
/// full, in which case it reports failure and changes nothing.
#[verifier::external_body]
fn port_map_insert(m: &mut PortMap, port: PortId, e: Endpoint) -> (stored: bool)
    ensures
        stored ==> port_entries(*final(m)) == port_entries(*old(m)).insert(port, e),
        !stored ==> port_entries(*final(m)) == port_entries(*old(m)),
        !stored ==> port_entries(*old(m)).dom().len() == 8,
{
    m.inner.insert(port, e).is_ok()
}

/// Relies on heapless::IndexMap::remove: takes the pair for `port` out.
#[verifier::external_body]
fn port_map_remove(m: &mut PortMap, port: &PortId) -> (r: Option<Endpoint>)
    ensures
        port_entries(*old(m)).dom().contains(*port) ==> r == Some(port_entries(*old(m))[*port]),
        !port_entries(*old(m)).dom().contains(*port) ==> r is None,
        port_entries(*final(m)) == port_entries(*old(m)).remove(*port),
{
    m.inner.remove(port)
}

pub struct Registry {
    index: PortMap,
}

impl Registry {
    pub closed spec fn view(&self) -> Map<PortId, Endpoint> {
        port_entries(self.index)
    }

    pub fn new() -> (r: Registry)
        ensures
            r@ == no_ports(),
    {
        Registry { index: port_map_new() }
    }

    /// The number of open ports.
    pub fn len(&self) -> (r: usize)
        ensures
            r == self@.dom().len(),
            r <= PORT_CAPACITY,
    {
        port_map_len(&self.index)
    }

    /// Opens the port of `listen` with `endpoint` as its owner. A port that
    /// is already open, or a full registry, gives `BufferOverflow` and
    /// changes nothing.
    pub fn listen(&mut self, listen: Listen, endpoint: Endpoint) -> (r: Result<(), abi::Error>)
        ensures
            (old(self)@.dom().contains(listen.port) || old(self)@.dom().len() >= PORT_CAPACITY)
                ==> r == Err::<(), abi::Error>(abi::Error::BufferOverflow) && final(self)@ == old(self)@,
            !(old(self)@.dom().contains(listen.port) || old(self)@.dom().len() >= PORT_CAPACITY)
                ==> r is Ok && final(self)@ == old(self)@.insert(listen.port, endpoint),
    {
        let n = port_map_len(&self.index);
        if port_map_get(&self.index, &listen.port).is_some() || n >= PORT_CAPACITY {
            return Err(abi::Error::BufferOverflow);
        }
        if port_map_insert(&mut self.index, listen.port, endpoint) {
            Ok(())
        } else {
            Err(abi::Error::BufferOverflow)
        }
    }

    /// Closes a port; `BufferOverflow` when it was not open.
    pub fn close(&mut self, port: PortId) -> (r: Result<(), abi::Error>)
        ensures
            old(self)@.dom().contains(port) ==> r is Ok,
            !old(self)@.dom().contains(port) ==> r == Err::<(), abi::Error>(abi::Error::BufferOverflow),
            final(self)@ == old(self)@.remove(port),
    {
        match port_map_remove(&mut self.index, &port) {
            Some(_) => Ok(()),
            None => Err(abi::Error::BufferOverflow),
        }
    }

    /// The owner of the port of `connect`; `PortNotOpen` when nobody listens.
    pub fn connect(&self, connect: Connect) -> (r: Result<Endpoint, abi::Error>)
        ensures
            self@.dom().contains(connect.port) ==> r == Ok::<Endpoint, abi::Error>(self@[connect.port]),
            !self@.dom().contains(connect.port) ==> r == Err::<Endpoint, abi::Error>(abi::Error::PortNotOpen),
    {
        match port_map_get(&self.index, &connect.port) {
            Some(e) => Ok(e),
            None => Err(abi::Error::PortNotOpen),
        }
    }
}

} // verus!
