//! Callsign addressing, MAC framing and the integer stages of a Bell-202
//! modem for an amateur-radio data link.
pub mod addr_eui;
pub mod ax25;
pub mod bell202;
pub mod bits;
pub mod cca;
pub mod checksum;
pub mod decimation;
pub mod error;
pub mod eui;
pub mod filter_kind;
pub mod frame_info;
pub mod ham_addr;
pub mod ham_char;
pub mod hdlc;
pub mod mac;
pub mod nrzi;
pub mod security;
mod text;

pub use ax25::Ax25Debug;
pub use bell202::{
    bell_202_line_levels, Bell202Deframer, BELL202_MARK, BELL202_OPTIMAL_SAMPLE_RATE,
    BELL202_RATE, BELL202_SPACE,
};
pub use bits::{bits_lsb, LsbIterator, MsbIterator};
pub use cca::{cca_poll, cca_start_send, SendError, SendReadiness};
pub use checksum::{append_crc, check_crc, strip_crc, x25_digest, X25_RESIDUE};
pub use decimation::DecimationClock;
pub use error::{AddrError, InvalidChar, InvalidCharAt, InvalidChunk};
pub use eui::{Eui48, Eui64};
pub use filter_kind::{FilterType, Window};
pub use frame_info::{
    FrameInfo, FrameType, KeyIdentMode, Mic, MicLen, NetworkId, ParseError, SecInfo,
    VERSION_1, VERSION_EXPERIMENTAL,
};
pub use ham_addr::{HamAddr, HamAddrType};
pub use ham_char::{HamChar, HamCharChunk};
pub use hdlc::{hdlc_encode, BitSampler, FrameCollector, FrameSignal, HdlcDecode, HdlcEncoderIter};
pub use mac::{mac_receive, MacVerdict};
pub use nrzi::{NrziDecode, NrziEncode};
pub use security::{NullSecurityContext, SecurityContext, SecurityError};
