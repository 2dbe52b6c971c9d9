use std::collections::HashMap;
use vstd::prelude::*;

verus! {

broadcast use vstd::std_specs::hash::group_hash_axioms;

/// The most payload bytes a response can carry: a classic frame holds the
/// length byte, the service byte, the PID, the payload and one unused byte.
pub const MAX_PAYLOAD_LEN: usize = 4;

/// The largest declared payload length whose length byte (`n + 2`) fits in a byte.
pub const MAX_NUM_DATA_BYTES: usize = 253;

/// The canned responses configured for one PID.
pub struct PidResponses {
    /// The number of meaningful payload bytes; the length byte is this plus two.
    pub num_data_bytes: usize,
    /// The payloads to answer with, in the order in which they are cycled.
    pub responses: Vec<Vec<u8>>,
}

/// Why a configured table was rejected, with the PID at fault.
#[derive(Debug, Clone, Copy, PartialEq, Eq, Structural)]
pub enum ConfigError {
    /// The PID has no responses.
    NoResponses(u8),
    /// The declared payload length does not fit in the length byte.
    DataLengthTooLarge(u8),
    /// One of the PID's payloads does not fit in a classic frame.
    ResponseTooLong(u8),
}

/// What is wrong with a descriptor, if anything, checked in this order.
pub open spec fn descriptor_error(pid: u8, d: PidResponses) -> Option<ConfigError> {
    if d.responses@.len() == 0 {
        Some(ConfigError::NoResponses(pid))
    } else if d.num_data_bytes > MAX_NUM_DATA_BYTES {
        Some(ConfigError::DataLengthTooLarge(pid))
    } else if exists|i: int|
        0 <= i < d.responses@.len() && #[trigger] d.responses@[i]@.len() > MAX_PAYLOAD_LEN {
        Some(ConfigError::ResponseTooLong(pid))
    } else {
        None
    }
}

/// A descriptor that can be served.
pub open spec fn descriptor_ok(d: PidResponses) -> bool {
    &&& d.responses@.len() > 0
    &&& d.num_data_bytes <= MAX_NUM_DATA_BYTES
    &&& forall|i: int|
        0 <= i < d.responses@.len() ==> #[trigger] d.responses@[i]@.len() <= MAX_PAYLOAD_LEN
}

/// Every descriptor of the map can be served.
pub open spec fn table_ok(m: Map<u8, PidResponses>) -> bool {
    forall|p: u8| #[trigger] m.contains_key(p) ==> descriptor_ok(m[p])
}

/// The error that loading reports: that of the smallest PID at fault.
pub open spec fn first_error(m: Map<u8, PidResponses>) -> Option<ConfigError> {
    first_error_from(m, 0)
}

/// The error of the smallest PID at fault among those from `p` up.
pub open spec fn first_error_from(m: Map<u8, PidResponses>, p: nat) -> Option<ConfigError>
    decreases 256 - p,
{
    if p >= 256 {
        None
    } else if m.contains_key(p as u8) && descriptor_error(p as u8, m[p as u8]).is_some() {
        descriptor_error(p as u8, m[p as u8])
    } else {
        first_error_from(m, p + 1)
    }
}

/// The response table: the canned responses of each configured PID. It is
/// read-only once built.
pub struct ResponseTable {
    entries: HashMap<u8, PidResponses>,
}

impl View for ResponseTable {
    type V = Map<u8, PidResponses>;

    closed spec fn view(&self) -> Map<u8, PidResponses> {
        self.entries@
    }
}

proof fn lemma_error_iff_not_ok(pid: u8, d: PidResponses)
    ensures
        descriptor_error(pid, d).is_none() == descriptor_ok(d),
{
}

proof fn lemma_first_error_from(m: Map<u8, PidResponses>, p: nat)
    requires
        p <= 256,
    ensures
        first_error_from(m, p).is_none() <==> (forall|q: u8|
            p <= q && #[trigger] m.contains_key(q) ==> descriptor_ok(m[q])),
    decreases 256 - p,
{
    if p < 256 {
        lemma_first_error_from(m, p + 1);
        lemma_error_iff_not_ok(p as u8, m[p as u8]);
        assert forall|q: u8| p <= q && #[trigger] m.contains_key(q) && first_error_from(m, p).is_none()
            implies descriptor_ok(m[q]) by {
            lemma_error_iff_not_ok(q, m[q]);
        }
    }
}

/// Checks one descriptor, in the order of `descriptor_error`.
fn check_descriptor(pid: u8, d: &PidResponses) -> (r: Option<ConfigError>)
    ensures
        r == descriptor_error(pid, *d),
{
    if d.responses.len() == 0 {
        return Some(ConfigError::NoResponses(pid));
    }
    if d.num_data_bytes > MAX_NUM_DATA_BYTES {
        return Some(ConfigError::DataLengthTooLarge(pid));
    }
    let mut i: usize = 0;
    while i < d.responses.len()
        invariant
            i <= d.responses@.len(),
            d.responses@.len() > 0,
            d.num_data_bytes <= MAX_NUM_DATA_BYTES,
            forall|j: int| 0 <= j < i ==> #[trigger] d.responses@[j]@.len() <= MAX_PAYLOAD_LEN,
        decreases d.responses@.len() - i,
    {
        if d.responses[i].len() > MAX_PAYLOAD_LEN {
            assert(d.responses@[i as int]@.len() > MAX_PAYLOAD_LEN);
            return Some(ConfigError::ResponseTooLong(pid));
        }
        i += 1;
    }
    None
}

impl ResponseTable {
    /// Every descriptor of the table can be served.
    pub open spec fn wf(&self) -> bool {
        table_ok(self@)
    }

    /// Builds the table from the configured mapping. Fails with the error of
    /// the smallest PID whose descriptor has no responses, declares a length
    /// too large for the length byte, or holds a payload too long for a frame.
    pub fn new(entries: HashMap<u8, PidResponses>) -> (r: Result<ResponseTable, ConfigError>)
        ensures
            r.is_ok() == table_ok(entries@),
            r matches Ok(t) ==> t@ == entries@ && t.wf(),
            r matches Err(e) ==> first_error(entries@) == Some(e),
    {
        let mut p: u16 = 0;
        while p < 256
            invariant
                p <= 256,
                first_error(entries@) == first_error_from(entries@, p as nat),
            decreases 256 - p,
        {
            let pid: u8 = p as u8;
            match entries.get(&pid) {
                Some(d) => {
                    let e = check_descriptor(pid, d);
                    if e.is_some() {
                        return Err(e.unwrap());
                    }
                },
                None => {},
            }
            p += 1;
        }
        proof {
            lemma_first_error_from(entries@, 0);
            assert(table_ok(entries@));
        }
        Ok(ResponseTable { entries })
    }

    /// The descriptor configured for `pid`, if any.
    pub fn lookup(&self, pid: u8) -> (r: Option<&PidResponses>)
        ensures
            r matches Some(d) ==> self@.contains_key(pid) && *d == self@[pid],
            r.is_none() == !self@.contains_key(pid),
    {
        self.entries.get(&pid)
    }

    /// Whether `pid` is configured.
    pub fn contains(&self, pid: u8) -> (r: bool)
        ensures
            r == self@.contains_key(pid),
    {
        self.entries.contains_key(&pid)
    }
}

} // verus!
