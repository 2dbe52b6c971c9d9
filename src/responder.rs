use vstd::arithmetic::div_mod::{lemma_add_mod_noop, lemma_mod_bound, lemma_small_mod};
use vstd::prelude::*;

use crate::cycler::{lemma_next_cursor, next_cursor, Cycler};
use crate::frame::{Frame, BROADCAST_ID, FRAME_LEN, RESPONSE_ID};
use crate::table::{descriptor_ok, table_ok, PidResponses, ResponseTable};

verus! {

/// The "show current data" service.
pub const SERVICE_CURRENT_DATA: u8 = 0x01;

/// Added to a request's service byte to form the response's service byte.
pub const RESPONSE_OFFSET: u8 = 0x40;

/// The PID that a frame asks for, where it is a "show current data"
/// broadcast request: sent to the broadcast identifier, with at least three
/// data bytes, and the service byte (index 1) equal to `0x01`.
pub open spec fn requested_pid(f: (u32, Seq<u8>)) -> Option<u8> {
    if f.0 == BROADCAST_ID && f.1.len() >= 3 && f.1[1] == SERVICE_CURRENT_DATA {
        Some(f.1[2])
    } else {
        None
    }
}

/// Which response of `d` is served when its cursor stands at `cursor`: the
/// only one of a single-response PID, else the one under the cursor.
pub open spec fn response_index(d: PidResponses, cursor: usize) -> int {
    if d.responses@.len() == 1 {
        0
    } else {
        cursor as int
    }
}

/// The data of the response that serves payload `k` of `d` for `pid`: the
/// length byte, the response service byte, the PID and the payload, padded
/// with zeros to a full frame.
pub open spec fn response_data(pid: u8, d: PidResponses, k: int) -> Seq<u8> {
    let payload = d.responses@[k]@;
    seq![(d.num_data_bytes + 2) as u8, (SERVICE_CURRENT_DATA + RESPONSE_OFFSET) as u8, pid]
        + payload + Seq::new((FRAME_LEN - 3 - payload.len()) as nat, |_i: int| 0u8)
}

/// The response to frame `f` under table `t` with cursors `c`, if any.
pub open spec fn respond(f: (u32, Seq<u8>), t: Map<u8, PidResponses>, c: Map<u8, usize>) -> Option<
    (u32, Seq<u8>),
> {
    match requested_pid(f) {
        Some(pid) => if t.contains_key(pid) {
            Some((RESPONSE_ID, response_data(pid, t[pid], response_index(t[pid], c[pid]))))
        } else {
            None
        },
        None => None,
    }
}

/// The cursors after answering frame `f`: only a matched multi-response PID
/// moves on.
pub open spec fn advance(f: (u32, Seq<u8>), t: Map<u8, PidResponses>, c: Map<u8, usize>) -> Map<
    u8,
    usize,
> {
    match requested_pid(f) {
        Some(pid) => if t.contains_key(pid) && t[pid].responses@.len() > 1 {
            c.insert(pid, next_cursor(c[pid], t[pid].responses.len()))
        } else {
            c
        },
        None => c,
    }
}

/// The cursors hold one entry per PID of the table, each within its list.
pub open spec fn cursors_fit(t: Map<u8, PidResponses>, c: Map<u8, usize>) -> bool {
    &&& c.dom() == t.dom()
    &&& forall|p: u8| #[trigger] t.contains_key(p) ==> c[p] < t[p].responses@.len()
}

/// Answers a frame: `None` where it is no "show current data" broadcast
/// request or asks for a PID the table lacks; otherwise the response frame,
/// advancing the cursor of a multi-response PID.
pub fn response_frame(frame: &Frame, table: &ResponseTable, cycler: &mut Cycler) -> (r: Option<
    Frame,
>)
    requires
        table.wf(),
        cursors_fit(table@, old(cycler)@),
    ensures
        r.is_some() == respond(frame@, table@, old(cycler)@).is_some(),
        r matches Some(f) ==> respond(frame@, table@, old(cycler)@) == Some(f@),
        final(cycler)@ == advance(frame@, table@, old(cycler)@),
        cursors_fit(table@, final(cycler)@),
{
    if frame.id != BROADCAST_ID || frame.data.len() < 3 {
        return None;
    }
    let service: u8 = frame.data[1];
    if service != SERVICE_CURRENT_DATA {
        return None;
    }
    let pid: u8 = frame.data[2];
    let d = match table.lookup(pid) {
        Some(d) => d,
        None => {
            return None;
        },
    };
    proof {
        assert(table@.contains_key(pid));
        assert(descriptor_ok(*d));
    }
    let n: usize = d.responses.len();
    let index: usize = if n == 1 {
        0
    } else {
        match cycler.next_index(pid, n) {
            Ok(i) => i,
            Err(_) => {
                return None;
            },
        }
    };
    proof {
        lemma_next_cursor(old(cycler)@[pid], n);
        assert forall|p: u8| #[trigger] table@.contains_key(p) implies cycler@[p]
            < table@[p].responses@.len() by {}
        assert(cycler@.dom() =~= table@.dom());
    }
    let payload: &Vec<u8> = &d.responses[index];
    let mut data: Vec<u8> = Vec::new();
    data.push((d.num_data_bytes + 2) as u8);
    data.push(service + RESPONSE_OFFSET);
    data.push(pid);
    let mut i: usize = 0;
    while i < payload.len()
        invariant
            i <= payload@.len(),
            payload@.len() <= 4,
            data@ == seq![(d.num_data_bytes + 2) as u8, (SERVICE_CURRENT_DATA + RESPONSE_OFFSET) as u8, pid]
                + payload@.subrange(0, i as int),
        decreases payload@.len() - i,
    {
        data.push(payload[i]);
        i += 1;
        proof {
            assert(payload@.subrange(0, i as int) =~= payload@.subrange(0, i - 1) + seq![payload@[i - 1]]);
        }
    }
    while data.len() < FRAME_LEN
        invariant
            3 + payload@.len() <= data@.len() <= FRAME_LEN,
            data@.subrange(0, 3 + payload@.len() as int) == seq![(d.num_data_bytes + 2) as u8, (SERVICE_CURRENT_DATA + RESPONSE_OFFSET) as u8, pid]
                + payload@,
            forall|j: int| 3 + payload@.len() <= j < data@.len() ==> data@[j] == 0,
        decreases FRAME_LEN - data@.len(),
    {
        data.push(0);
    }
    proof {
        let expected = response_data(pid, *d, index as int);
        assert(data@ =~= expected);
    }
    Frame::new(RESPONSE_ID, data)
}

/// The cursors after `k` consecutive requests that are all frame `f`.
pub open spec fn advance_n(f: (u32, Seq<u8>), t: Map<u8, PidResponses>, c: Map<u8, usize>, k: nat) -> Map<
    u8,
    usize,
>
    decreases k,
{
    if k == 0 {
        c
    } else {
        advance(f, t, advance_n(f, t, c, (k - 1) as nat))
    }
}

/// A frame sent to any identifier but the broadcast one gets no response,
/// whatever it holds, and moves no cursor.
pub proof fn lemma_other_identifier_ignored(
    f: (u32, Seq<u8>),
    t: Map<u8, PidResponses>,
    c: Map<u8, usize>,
)
    requires
        f.0 != BROADCAST_ID,
    ensures
        respond(f, t, c).is_none(),
        advance(f, t, c) == c,
{
}

/// A broadcast frame whose service byte is missing or is not "show current
/// data" gets no response and moves no cursor.
pub proof fn lemma_other_service_ignored(
    f: (u32, Seq<u8>),
    t: Map<u8, PidResponses>,
    c: Map<u8, usize>,
)
    requires
        f.0 == BROADCAST_ID,
        !(f.1.len() >= 2 && f.1[1] == SERVICE_CURRENT_DATA),
    ensures
        respond(f, t, c).is_none(),
        advance(f, t, c) == c,
{
}

/// A "show current data" broadcast request for a PID that the table lacks
/// gets no response and moves no cursor.
pub proof fn lemma_unknown_pid_ignored(f: (u32, Seq<u8>), t: Map<u8, PidResponses>, c: Map<u8, usize>)
    requires
        f.0 == BROADCAST_ID,
        f.1.len() >= 3,
        f.1[1] == SERVICE_CURRENT_DATA,
        !t.contains_key(f.1[2]),
    ensures
        respond(f, t, c).is_none(),
        advance(f, t, c) == c,
{
}

/// Requests for a PID with a single response all get the same response,
/// whatever the cursors, and leave the cursors as they were.
pub proof fn lemma_single_response_stable(
    f1: (u32, Seq<u8>),
    f2: (u32, Seq<u8>),
    t: Map<u8, PidResponses>,
    c1: Map<u8, usize>,
    c2: Map<u8, usize>,
    pid: u8,
)
    requires
        requested_pid(f1) == Some(pid),
        requested_pid(f2) == Some(pid),
        t.contains_key(pid),
        t[pid].responses@.len() == 1,
    ensures
        respond(f1, t, c1) == respond(f2, t, c2),
        respond(f1, t, c1) == Some((RESPONSE_ID, response_data(pid, t[pid], 0))),
        advance(f1, t, c1) == c1,
{
}

proof fn lemma_advance_n_cursor(
    f: (u32, Seq<u8>),
    t: Map<u8, PidResponses>,
    c: Map<u8, usize>,
    pid: u8,
    k: nat,
)
    requires
        requested_pid(f) == Some(pid),
        t.contains_key(pid),
        t[pid].responses@.len() > 1,
        c.contains_key(pid),
        c[pid] == 0,
    ensures
        advance_n(f, t, c, k).contains_key(pid),
        advance_n(f, t, c, k)[pid] == (k as int) % (t[pid].responses@.len() as int),
    decreases k,
{
    let nu: usize = t[pid].responses.len();
    let n = nu as int;
    if k == 0 {
        lemma_small_mod(0, n as nat);
    } else {
        let km1 = (k - 1) as nat;
        lemma_advance_n_cursor(f, t, c, pid, km1);
        lemma_mod_bound(km1 as int, n);
        let cur = advance_n(f, t, c, km1)[pid];
        lemma_next_cursor(cur, nu);
        lemma_small_mod(cur as nat, n as nat);
        lemma_add_mod_noop(km1 as int, 1, n);
        lemma_small_mod(1, n as nat);
    }
}

/// Consecutive requests for a PID with `n` responses, starting from a
/// cursor at zero, are answered with the responses in their configured order,
/// starting over after the last: request `k` (from zero) gets response
/// `k % n`, so the `n + 1`-th gets the same response as the first.
pub proof fn lemma_responses_cycle(
    f: (u32, Seq<u8>),
    t: Map<u8, PidResponses>,
    c: Map<u8, usize>,
    pid: u8,
)
    requires
        requested_pid(f) == Some(pid),
        t.contains_key(pid),
        t[pid].responses@.len() > 1,
        c.contains_key(pid),
        c[pid] == 0,
    ensures
        forall|k: nat|
            #[trigger] respond(f, t, advance_n(f, t, c, k)) == Some(
                (RESPONSE_ID, response_data(pid, t[pid], (k as int) % (t[pid].responses@.len() as int))),
            ),
        respond(f, t, advance_n(f, t, c, t[pid].responses@.len())) == respond(f, t, c),
{
    let n = t[pid].responses@.len();
    assert forall|k: nat|
        #[trigger] respond(f, t, advance_n(f, t, c, k)) == Some(
            (RESPONSE_ID, response_data(pid, t[pid], (k as int) % (n as int))),
        ) by {
        lemma_advance_n_cursor(f, t, c, pid, k);
    }
    lemma_advance_n_cursor(f, t, c, pid, n);
    lemma_advance_n_cursor(f, t, c, pid, 0);
    vstd::arithmetic::div_mod::lemma_mod_self_0(n as int);
}

/// The length byte of every response is the PID's declared payload length
/// plus two.
pub proof fn lemma_length_byte(f: (u32, Seq<u8>), t: Map<u8, PidResponses>, c: Map<u8, usize>)
    requires
        table_ok(t),
        cursors_fit(t, c),
        respond(f, t, c).is_some(),
    ensures
        respond(f, t, c).unwrap().1[0] == t[requested_pid(f).unwrap()].num_data_bytes + 2,
{
    let pid = requested_pid(f).unwrap();
    assert(descriptor_ok(t[pid]));
}

/// Every response is sent to the response identifier and holds eight data
/// bytes, the last of them zero.
pub proof fn lemma_response_shape(f: (u32, Seq<u8>), t: Map<u8, PidResponses>, c: Map<u8, usize>)
    requires
        table_ok(t),
        cursors_fit(t, c),
        respond(f, t, c).is_some(),
    ensures
        respond(f, t, c).unwrap().0 == RESPONSE_ID,
        respond(f, t, c).unwrap().1.len() == FRAME_LEN,
        respond(f, t, c).unwrap().1[7] == 0,
{
    let pid = requested_pid(f).unwrap();
    assert(descriptor_ok(t[pid]));
    let k = response_index(t[pid], c[pid]);
    assert(t[pid].responses@[k]@.len() <= 4);
}

} // verus!
