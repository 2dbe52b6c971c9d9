use vstd::prelude::*;

verus! {

/// The functional broadcast identifier that diagnostic testers send requests to.
pub const BROADCAST_ID: u32 = 0x7DF;

/// The identifier that the first engine control unit answers on.
pub const RESPONSE_ID: u32 = 0x7E8;

/// The number of data bytes of a classic CAN frame.
pub const FRAME_LEN: usize = 8;

/// The largest 11-bit standard identifier.
pub const MAX_STANDARD_ID: u32 = 0x7FF;

#[verifier::external_type_specification]
#[verifier::external_body]
pub struct ExStandardId(embedded_can::StandardId);

/// Relies on `embedded_can::StandardId::new`: it accepts exactly the raw
/// values that fit in 11 bits.
pub assume_specification[ embedded_can::StandardId::new ](raw: u16) -> (r: Option<
    embedded_can::StandardId,
>)
    ensures
        r.is_some() == (raw <= 0x7FF),
;

/// A classic CAN frame: an identifier and up to eight data bytes.
pub struct Frame {
    pub id: u32,
    pub data: Vec<u8>,
}

impl View for Frame {
    type V = (u32, Seq<u8>);

    open spec fn view(&self) -> (u32, Seq<u8>) {
        (self.id, self.data@)
    }
}

/// A frame with a standard identifier and at most eight data bytes.
pub open spec fn is_standard_frame(id: u32, data: Seq<u8>) -> bool {
    id <= MAX_STANDARD_ID && data.len() <= FRAME_LEN
}

impl Frame {
    /// Builds a frame with a standard (11-bit) identifier; `None` where the
    /// identifier does not fit in 11 bits or the data exceed eight bytes.
    pub fn new(id: u32, data: Vec<u8>) -> (r: Option<Frame>)
        ensures
            r.is_some() == is_standard_frame(id, data@),
            r matches Some(f) ==> f@ == (id, data@),
    {
        if id > 0xFFFF {
            return None;
        }
        let raw: u16 = id as u16;
        if embedded_can::StandardId::new(raw).is_none() {
            return None;
        }
        if data.len() > FRAME_LEN {
            return None;
        }
        Some(Frame { id, data })
    }
}

} // verus!
