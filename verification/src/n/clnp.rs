//! The CLNP protocol engine: PDU wire codec (encode, decode, header
//! checksum), echo request composition, and the network-layer service with
//! its echo correlation table.
use vstd::prelude::*;

use crate::channel::{n_capacity, n_contents, sn_capacity, sn_contents, NChannel, SnChannel};
use crate::dl::SNUnitDataRequest;
use super::{spec_nsap_bytes, NUnitDataIndication, Nsap, Qos};

verus! {

/// Error taxonomy of the protocol engine.
#[derive(Debug, Clone, Copy, PartialEq, Eq, Structural)]
pub enum ClnpError {
    /// The caller-owned output buffer cannot hold the encoding.
    BufferTooSmall,
    /// The PDU kind or header part is outside the supported protocol subset.
    NotImplemented,
    /// A received buffer is structurally invalid: truncated, an unknown type
    /// code, or a forbidden flag combination.
    ProtocolViolation,
    /// The outbound channel is full; the frame was not enqueued.
    Congestion,
    /// A malformed address string or an unresolvable title.
    Configuration,
}

/// High byte of a sixteen-bit field in its big-endian wire order.
pub open spec fn spec_u16_hi(v: u16) -> u8 {
    (v / 256) as u8
}

/// Low byte of a sixteen-bit field in its big-endian wire order.
pub open spec fn spec_u16_lo(v: u16) -> u8 {
    (v % 256) as u8
}

/// Big-endian wire form of a sixteen-bit field.
pub open spec fn spec_u16_be(v: u16) -> Seq<u8> {
    seq![spec_u16_hi(v), spec_u16_lo(v)]
}

/// The sixteen-bit value read back from two big-endian wire bytes.
pub open spec fn spec_u16_of(hi: u8, lo: u8) -> u16 {
    (hi * 256 + lo) as u16
}

pub fn u16_hi(v: u16) -> (r: u8)
    ensures
        r == spec_u16_hi(v),
{
    (v / 256) as u8
}

pub fn u16_lo(v: u16) -> (r: u8)
    ensures
        r == spec_u16_lo(v),
{
    (v % 256) as u8
}

pub fn u16_of(hi: u8, lo: u8) -> (r: u16)
    ensures
        r == spec_u16_of(hi, lo),
{
    hi as u16 * 256 + lo as u16
}

/// Reading the two big-endian bytes of a field back gives the field.
pub proof fn lemma_u16_be_round_trip(v: u16)
    ensures
        spec_u16_of(spec_u16_hi(v), spec_u16_lo(v)) == v,
        spec_u16_be(v).len() == 2,
{
}

/// Network-layer protocol identifier of the full and non-segmenting subsets.
pub const NETWORK_LAYER_PROTOCOL_IDENTIFIER_CLNP_FULL: u8 = 0x81;

/// Network-layer protocol identifier of the inactive subset.
pub const NETWORK_LAYER_PROTOCOL_IDENTIFIER_CLNP_INACTIVE: u8 = 0x00;

/// Version/protocol-identifier-extension one.
pub const VERSION_PROTOCOL_ID_EXTENSION_1: u8 = 0x01;

/// Five-bit type code of a Data PDU.
pub const TYPE_DT_PDU: u8 = 0x1C;

/// Five-bit type code of a Multicast Data PDU.
pub const TYPE_MD_PDU: u8 = 0x1D;

/// Five-bit type code of an Error Report PDU.
pub const TYPE_ER_PDU: u8 = 0x01;

/// Five-bit type code of an Echo Request PDU.
pub const TYPE_ERQ_PDU: u8 = 0x1E;

/// Five-bit type code of an Echo Response PDU.
pub const TYPE_ERP_PDU: u8 = 0x1F;

/// Octet five of the fixed part: the three flag bits packed with the
/// five-bit type code.
pub open spec fn spec_octet5(sp: bool, ms: bool, er: bool, t: u8) -> u8 {
    (if sp {
        0x80u8
    } else {
        0u8
    }) | (if ms {
        0x40u8
    } else {
        0u8
    }) | (if er {
        0x20u8
    } else {
        0u8
    }) | t
}

/// Segmentation-permitted flag of octet five.
pub open spec fn spec_o5_sp(o: u8) -> bool {
    o & 0x80 != 0
}

/// More-segments flag of octet five.
pub open spec fn spec_o5_ms(o: u8) -> bool {
    o & 0x40 != 0
}

/// Error-report flag of octet five.
pub open spec fn spec_o5_er(o: u8) -> bool {
    o & 0x20 != 0
}

/// Five-bit type code of octet five.
pub open spec fn spec_o5_type(o: u8) -> u8 {
    o & 0x1F
}

/// Unpacking a packed octet five gives back its flags and type code.
pub proof fn lemma_octet5_round_trip(sp: bool, ms: bool, er: bool, t: u8)
    requires
        t < 32,
    ensures
        spec_o5_sp(spec_octet5(sp, ms, er, t)) == sp,
        spec_o5_ms(spec_octet5(sp, ms, er, t)) == ms,
        spec_o5_er(spec_octet5(sp, ms, er, t)) == er,
        spec_o5_type(spec_octet5(sp, ms, er, t)) == t,
{
    let a: u8 = if sp { 0x80u8 } else { 0u8 };
    let m: u8 = if ms { 0x40u8 } else { 0u8 };
    let e: u8 = if er { 0x20u8 } else { 0u8 };
    assert((((a | m | e | t) & 0x80 != 0) == (a != 0)) && (((a | m | e | t) & 0x40 != 0) == (m
        != 0)) && (((a | m | e | t) & 0x20 != 0) == (e != 0)) && ((a | m | e | t) & 0x1F == t))
        by (bit_vector)
        requires
            (a == 0x80 || a == 0) && (m == 0x40 || m == 0) && (e == 0x20 || e == 0) && t < 32,
    ;
}

/// Fixed part of a full-subset PDU header: the first nine octets. The length
/// indicator, segment length and checksum are derived during encoding — the
/// one exception is a segment length composed as the invalid sentinel zero,
/// which is transmitted as such; a decoded header carries the values read
/// from the wire.
#[derive(Debug, Clone, Copy)]
pub struct NFixedPart {
    pub network_layer_protocol_identifier: u8,
    pub length_indicator: Option<u8>,
    pub version_protocol_id_extension: u8,
    pub lifetime: u8,
    /// Segmentation permitted: a segmentation part is present if and only if
    /// this flag is set.
    pub sp_segmentation_permitted: bool,
    pub ms_more_segments: bool,
    pub er_error_report: bool,
    /// Five-bit type code.
    pub type_: u8,
    pub segment_length: Option<u16>,
    /// The two checksum octets, handled separately by the header
    /// error-detection algorithm.
    pub checksum: (u8, u8),
}

/// Single-octet stand-in for the fixed part of an inactive-subset PDU.
#[derive(Debug, Clone, Copy)]
pub struct NFixedPartMiniForInactive {
    pub network_layer_protocol_identifier: u8,
}

/// Address part: length-prefixed destination and source addresses.
#[derive(Debug, Clone)]
pub struct NAddressPart {
    pub destination_address_length_indicator: Option<u8>,
    pub destination_address: Vec<u8>,
    pub source_address_length_indicator: Option<u8>,
    pub source_address: Vec<u8>,
}

/// Segmentation part: present if and only if the segmentation-permitted flag
/// is set.
#[derive(Debug, Clone, Copy)]
pub struct NSegmentationPart {
    pub data_unit_identifier: u16,
    pub segment_offset: u16,
    pub total_length: u16,
}

/// One type-length-value parameter of the options part.
#[derive(Debug, Clone)]
pub struct NParameter {
    pub parameter_code: u8,
    pub parameter_length: u8,
    pub parameter_value: Vec<u8>,
}

/// Options part: a sequence of type-length-value parameters. Only its size
/// computation is supported; composing and decoding options is outside the
/// supported subset.
#[derive(Debug, Clone)]
pub struct NOptionsPart {
    pub params: Vec<NParameter>,
}

/// Reason-for-discard part, valid only for the Error Report PDU.
#[derive(Debug, Clone)]
pub struct NReasonForDiscardPart {
    pub param: NParameter,
}

/// Data part: the raw payload bytes.
#[derive(Debug, Clone)]
pub struct NDataPart {
    pub data: Vec<u8>,
}

/// A network-layer protocol data unit.
#[derive(Debug)]
pub enum Pdu {
    Inactive { fixed_mini: NFixedPartMiniForInactive, data: NDataPart },
    DataPDU {
        fixed: NFixedPart,
        addr: NAddressPart,
        seg: Option<NSegmentationPart>,
        opts: Option<NOptionsPart>,
        discard: Option<NReasonForDiscardPart>,
        data: Option<NDataPart>,
    },
    /// No segmentation part, and the reason-for-discard part is mandatory.
    ErrorReportPDU {
        fixed: NFixedPart,
        addr: NAddressPart,
        opts: Option<NOptionsPart>,
        discard: NReasonForDiscardPart,
        data: Option<NDataPart>,
    },
    EchoRequestPDU {
        fixed: NFixedPart,
        addr: NAddressPart,
        seg: Option<NSegmentationPart>,
        opts: Option<NOptionsPart>,
        discard: Option<NReasonForDiscardPart>,
        data: Option<NDataPart>,
    },
    EchoResponsePDU {
        fixed: NFixedPart,
        addr: NAddressPart,
        seg: Option<NSegmentationPart>,
        opts: Option<NOptionsPart>,
        discard: Option<NReasonForDiscardPart>,
        data: Option<NDataPart>,
    },
    MulticastDataPDU {
        fixed: NFixedPart,
        addr: NAddressPart,
        seg: Option<NSegmentationPart>,
        opts: Option<NOptionsPart>,
        discard: Option<NReasonForDiscardPart>,
        data: Option<NDataPart>,
    },
}

/// Mathematical content of a PDU: the logical fields with every byte buffer
/// as a sequence. The options and reason-for-discard parts carry no model;
/// they are outside the supported subset, and encoding a PDU that holds them
/// fails.
pub enum PduM {
    Inactive { npid: u8, data: Seq<u8> },
    Data { fixed: NFixedPart, dest: Seq<u8>, src: Seq<u8>, seg: Option<NSegmentationPart>, data: Option<Seq<u8>> },
    ErrorReport { fixed: NFixedPart, dest: Seq<u8>, src: Seq<u8>, data: Option<Seq<u8>> },
    EchoRequest { fixed: NFixedPart, dest: Seq<u8>, src: Seq<u8>, seg: Option<NSegmentationPart>, data: Option<Seq<u8>> },
    EchoResponse { fixed: NFixedPart, dest: Seq<u8>, src: Seq<u8>, seg: Option<NSegmentationPart>, data: Option<Seq<u8>> },
    MulticastData { fixed: NFixedPart, dest: Seq<u8>, src: Seq<u8>, seg: Option<NSegmentationPart>, data: Option<Seq<u8>> },
}

impl View for Pdu {
    type V = PduM;

    open spec fn view(&self) -> PduM {
        match self {
            Pdu::Inactive { fixed_mini, data } => PduM::Inactive {
                npid: fixed_mini.network_layer_protocol_identifier,
                data: data.data@,
            },
            Pdu::DataPDU { fixed, addr, seg, opts, discard, data } => PduM::Data {
                fixed: *fixed,
                dest: addr.destination_address@,
                src: addr.source_address@,
                seg: *seg,
                data: match data {
                    Some(d) => Some(d.data@),
                    None => None,
                },
            },
            Pdu::EchoRequestPDU { fixed, addr, seg, opts, discard, data } => PduM::EchoRequest {
                fixed: *fixed,
                dest: addr.destination_address@,
                src: addr.source_address@,
                seg: *seg,
                data: match data {
                    Some(d) => Some(d.data@),
                    None => None,
                },
            },
            Pdu::EchoResponsePDU { fixed, addr, seg, opts, discard, data } => PduM::EchoResponse {
                fixed: *fixed,
                dest: addr.destination_address@,
                src: addr.source_address@,
                seg: *seg,
                data: match data {
                    Some(d) => Some(d.data@),
                    None => None,
                },
            },
            Pdu::MulticastDataPDU { fixed, addr, seg, opts, discard, data } => PduM::MulticastData {
                fixed: *fixed,
                dest: addr.destination_address@,
                src: addr.source_address@,
                seg: *seg,
                data: match data {
                    Some(d) => Some(d.data@),
                    None => None,
                },
            },
            Pdu::ErrorReportPDU { fixed, addr, opts, discard, data } => PduM::ErrorReport {
                fixed: *fixed,
                dest: addr.destination_address@,
                src: addr.source_address@,
                data: match data {
                    Some(d) => Some(d.data@),
                    None => None,
                },
            },
        }
    }
}

impl PduM {
    /// The model belongs to the common Data/Echo/Multicast layout.
    pub open spec fn is_data_family(self) -> bool {
        self is Data || self is EchoRequest || self is EchoResponse || self is MulticastData
    }

    /// Fixed part of a data-family model.
    pub open spec fn fixed(self) -> NFixedPart {
        match self {
            PduM::Data { fixed, .. } => fixed,
            PduM::EchoRequest { fixed, .. } => fixed,
            PduM::EchoResponse { fixed, .. } => fixed,
            PduM::MulticastData { fixed, .. } => fixed,
            PduM::ErrorReport { fixed, .. } => fixed,
            PduM::Inactive { .. } => arbitrary(),
        }
    }

    /// Destination address bytes of a data-family model.
    pub open spec fn dest(self) -> Seq<u8> {
        match self {
            PduM::Data { dest, .. } => dest,
            PduM::EchoRequest { dest, .. } => dest,
            PduM::EchoResponse { dest, .. } => dest,
            PduM::MulticastData { dest, .. } => dest,
            PduM::ErrorReport { dest, .. } => dest,
            PduM::Inactive { .. } => arbitrary(),
        }
    }

    /// Source address bytes of a data-family model.
    pub open spec fn src(self) -> Seq<u8> {
        match self {
            PduM::Data { src, .. } => src,
            PduM::EchoRequest { src, .. } => src,
            PduM::EchoResponse { src, .. } => src,
            PduM::MulticastData { src, .. } => src,
            PduM::ErrorReport { src, .. } => src,
            PduM::Inactive { .. } => arbitrary(),
        }
    }

    /// Segmentation part of a data-family model.
    pub open spec fn seg(self) -> Option<NSegmentationPart> {
        match self {
            PduM::Data { seg, .. } => seg,
            PduM::EchoRequest { seg, .. } => seg,
            PduM::EchoResponse { seg, .. } => seg,
            PduM::MulticastData { seg, .. } => seg,
            PduM::ErrorReport { .. } => None,
            PduM::Inactive { .. } => arbitrary(),
        }
    }

    /// Payload bytes of the model: the data part, or empty when absent.
    pub open spec fn payload(self) -> Seq<u8> {
        match self {
            PduM::Inactive { data, .. } => data,
            PduM::Data { data, .. } => spec_data_or_empty(data),
            PduM::EchoRequest { data, .. } => spec_data_or_empty(data),
            PduM::EchoResponse { data, .. } => spec_data_or_empty(data),
            PduM::MulticastData { data, .. } => spec_data_or_empty(data),
            PduM::ErrorReport { data, .. } => spec_data_or_empty(data),
        }
    }

    /// Five-bit type code that matches the model's variant.
    pub open spec fn variant_type_code(self) -> u8 {
        match self {
            PduM::Data { .. } => TYPE_DT_PDU,
            PduM::EchoRequest { .. } => TYPE_ERQ_PDU,
            PduM::EchoResponse { .. } => TYPE_ERP_PDU,
            PduM::MulticastData { .. } => TYPE_MD_PDU,
            PduM::ErrorReport { .. } => TYPE_ER_PDU,
            PduM::Inactive { .. } => arbitrary(),
        }
    }

    /// Length of the header this model encodes to.
    pub open spec fn header_len(self) -> int {
        11 + self.dest().len() + self.src().len() + if self.seg() is Some {
            6int
        } else {
            0int
        }
    }

    /// Length of the whole encoding: header plus payload.
    pub open spec fn total_len(self) -> int {
        if self is Inactive {
            1 + self.payload().len() as int
        } else {
            self.header_len() + self.payload().len()
        }
    }

    /// The wire format can carry this model: the header length fits its
    /// one-octet indicator and the whole PDU fits the two-octet segment
    /// length.
    pub open spec fn wire_fits(self) -> bool {
        if self is Inactive {
            1 + self.payload().len() <= usize::MAX
        } else {
            self.header_len() <= 255 && self.total_len() <= 65535
        }
    }
}

/// The payload bytes of an optional data part: empty when absent.
pub open spec fn spec_data_or_empty(data: Option<Seq<u8>>) -> Seq<u8> {
    match data {
        Some(d) => d,
        None => Seq::empty(),
    }
}

/// Wire bytes of a segmentation part: three big-endian sixteen-bit fields.
pub open spec fn spec_seg_bytes(seg: Option<NSegmentationPart>) -> Seq<u8> {
    match seg {
        Some(s) => spec_u16_be(s.data_unit_identifier) + spec_u16_be(s.segment_offset)
            + spec_u16_be(s.total_length),
        None => Seq::empty(),
    }
}

/// Derived header length of a data-family layout: nine fixed octets, two
/// address length octets, the two addresses, and six more octets when a
/// segmentation part is present.
pub open spec fn spec_header_len_parts(
    dest: Seq<u8>,
    src: Seq<u8>,
    seg: Option<NSegmentationPart>,
) -> int {
    11 + dest.len() + src.len() + if seg is Some {
        6int
    } else {
        0int
    }
}

/// The segment-length field a PDU is encoded with: normally the derived
/// total of header and data, never independently settable — with one
/// protocol-mandated exception: a fixed part composed with the invalid
/// sentinel `Some(0)` transmits the sentinel, as the echo request function
/// requires of its inner Echo Response PDU.
pub open spec fn spec_seg_len_field(f: NFixedPart, total: int) -> u16 {
    if f.segment_length == Some(0u16) {
        0u16
    } else {
        total as u16
    }
}

/// Header bytes of a data-family layout before the checksum is filled in:
/// the fixed part with derived length indicator and segment length (or its
/// invalid sentinel) and the checksum field as given, then the address part,
/// then the segmentation part.
pub open spec fn spec_header_zero_parts(
    f: NFixedPart,
    dest: Seq<u8>,
    src: Seq<u8>,
    seg: Option<NSegmentationPart>,
    payload_len: int,
) -> Seq<u8> {
    let hlen = spec_header_len_parts(dest, src, seg);
    seq![
        f.network_layer_protocol_identifier,
        hlen as u8,
        f.version_protocol_id_extension,
        f.lifetime,
        spec_octet5(f.sp_segmentation_permitted, f.ms_more_segments, f.er_error_report, f.type_),
        spec_u16_hi(spec_seg_len_field(f, hlen + payload_len)),
        spec_u16_lo(spec_seg_len_field(f, hlen + payload_len)),
        f.checksum.0,
        f.checksum.1,
        dest.len() as u8,
    ] + dest + seq![src.len() as u8] + src + spec_seg_bytes(seg)
}

/// The whole wire encoding of a data-family layout given by its parts.
pub open spec fn spec_encode_parts(
    f: NFixedPart,
    dest: Seq<u8>,
    src: Seq<u8>,
    seg: Option<NSegmentationPart>,
    payload: Seq<u8>,
    checksum_option: bool,
) -> Seq<u8> {
    let h0 = spec_header_zero_parts(f, dest, src, seg, payload.len() as int);
    let h = if checksum_option {
        h0.update(7, ck_x(h0)).update(8, ck_y(h0))
    } else {
        h0
    };
    h + payload
}

/// Header bytes of a data-family model before the checksum is filled in.
pub open spec fn spec_header_zero(m: PduM) -> Seq<u8> {
    spec_header_zero_parts(m.fixed(), m.dest(), m.src(), m.seg(), m.payload().len() as int)
}

/// Running sum of the header bytes, the checksum accumulator `c0`.
pub open spec fn sum0(s: Seq<u8>) -> int
    decreases s.len(),
{
    if s.len() == 0 {
        0
    } else {
        sum0(s.drop_last()) + s.last()
    }
}

/// Running sum of the running sums, the checksum accumulator `c1`.
pub open spec fn sum1(s: Seq<u8>) -> int
    decreases s.len(),
{
    if s.len() == 0 {
        0
    } else {
        sum1(s.drop_last()) + sum0(s)
    }
}

/// First checksum octet of a header: `((L-8)*c0 - c1) mod 255`, a computed
/// zero remapped to 255 as the header error-detection function defines.
pub open spec fn ck_x(h: Seq<u8>) -> u8 {
    let v = ((h.len() - 8) * sum0(h) - sum1(h)) % 255;
    if v == 0 {
        255u8
    } else {
        v as u8
    }
}

/// Second checksum octet of a header: `((L-7)*(-c0) + c1) mod 255`, a
/// computed zero remapped to 255.
pub open spec fn ck_y(h: Seq<u8>) -> u8 {
    let v = ((h.len() - 7) * (-sum0(h)) + sum1(h)) % 255;
    if v == 0 {
        255u8
    } else {
        v as u8
    }
}

/// Header bytes of a data-family model: when the checksum option is chosen,
/// the two checksum octets computed over the header replace the field's
/// octets.
pub open spec fn spec_header(m: PduM, checksum_option: bool) -> Seq<u8> {
    let h0 = spec_header_zero(m);
    if checksum_option {
        h0.update(7, ck_x(h0)).update(8, ck_y(h0))
    } else {
        h0
    }
}

/// The model's variants that the encoder supports: the inactive subset and
/// the Data/Echo layouts. Multicast Data is not implemented.
pub open spec fn spec_encodable(m: PduM) -> bool {
    m is Inactive || m is Data || m is EchoRequest || m is EchoResponse
}

/// The whole wire encoding of a PDU model.
pub open spec fn spec_encode(m: PduM, checksum_option: bool) -> Seq<u8> {
    if m is Inactive {
        seq![m->Inactive_npid] + m.payload()
    } else {
        spec_header(m, checksum_option) + m.payload()
    }
}

/// The encoder supports this PDU: an inactive-subset PDU, or a Data/Echo
/// layout without an options part. Multicast Data and Error Report
/// composition, and options composition, are not implemented.
pub open spec fn encodable(p: Pdu) -> bool {
    match p {
        Pdu::Inactive { .. } => true,
        Pdu::DataPDU { opts, .. } => opts is None,
        Pdu::EchoRequestPDU { opts, .. } => opts is None,
        Pdu::EchoResponsePDU { opts, .. } => opts is None,
        Pdu::MulticastDataPDU { .. } => false,
        Pdu::ErrorReportPDU { .. } => false,
    }
}

/// Replacing one byte shifts the first checksum accumulator by the
/// difference.
pub proof fn lemma_sum0_update(s: Seq<u8>, i: int, v: u8)
    requires
        0 <= i < s.len(),
    ensures
        sum0(s.update(i, v)) == sum0(s) - s[i] + v,
    decreases s.len(),
{
    if i == s.len() - 1 {
        assert(s.update(i, v).drop_last() =~= s.drop_last());
    } else {
        assert(s.update(i, v).drop_last() =~= s.drop_last().update(i, v));
        lemma_sum0_update(s.drop_last(), i, v);
    }
}

/// Replacing the byte at position `i` shifts the second checksum accumulator
/// by the difference weighted with the byte's distance from the end.
pub proof fn lemma_sum1_update(s: Seq<u8>, i: int, v: u8)
    requires
        0 <= i < s.len(),
    ensures
        sum1(s.update(i, v)) == sum1(s) + (s.len() - i) * (v - s[i]),
    decreases s.len(),
{
    let n = s.len() as int;
    lemma_sum0_update(s, i, v);
    if i == n - 1 {
        assert(s.update(i, v).drop_last() =~= s.drop_last());
        assert(sum1(s.update(i, v)) == sum1(s) + 1 * (v - s[i])) by (nonlinear_arith)
            requires
                sum1(s.update(i, v)) == sum1(s.drop_last()) + sum0(s.update(i, v)),
                sum1(s) == sum1(s.drop_last()) + sum0(s),
                sum0(s.update(i, v)) == sum0(s) - s[i] + v,
        ;
    } else {
        assert(s.update(i, v).drop_last() =~= s.drop_last().update(i, v));
        lemma_sum1_update(s.drop_last(), i, v);
        assert(sum1(s.update(i, v)) == sum1(s) + (n - i) * (v - s[i])) by (nonlinear_arith)
            requires
                sum1(s.update(i, v)) == sum1(s.drop_last().update(i, v)) + sum0(s.update(i, v)),
                sum1(s.drop_last().update(i, v)) == sum1(s.drop_last()) + (n - 1 - i) * (v
                    - s[i]),
                sum1(s) == sum1(s.drop_last()) + sum0(s),
                sum0(s.update(i, v)) == sum0(s) - s[i] + v,
        ;
    }
}

/// Appending one byte extends both checksum accumulators accordingly.
pub proof fn lemma_sum_push(s: Seq<u8>, x: u8)
    ensures
        sum0(s.push(x)) == sum0(s) + x,
        sum1(s.push(x)) == sum1(s) + sum0(s) + x,
{
    assert(s.push(x).drop_last() =~= s);
}

/// Both checksum accumulators of a header are non-negative and bounded by
/// 255 times the byte count (squared, for the second).
pub proof fn lemma_sum_bounds(s: Seq<u8>)
    ensures
        0 <= sum0(s) <= 255 * s.len(),
        0 <= sum1(s) <= 255 * s.len() * s.len(),
    decreases s.len(),
{
    if s.len() > 0 {
        lemma_sum_bounds(s.drop_last());
        let n = s.len() as int;
        assert(0 <= sum0(s) <= 255 * n) by (nonlinear_arith)
            requires
                0 <= sum0(s.drop_last()) <= 255 * (n - 1),
                sum0(s) == sum0(s.drop_last()) + s.last(),
                0 <= s.last() <= 255,
                n >= 1,
        ;
        assert(0 <= sum1(s) <= 255 * n * n) by (nonlinear_arith)
            requires
                0 <= sum1(s.drop_last()) <= 255 * (n - 1) * (n - 1),
                sum1(s) == sum1(s.drop_last()) + sum0(s),
                0 <= sum0(s) <= 255 * n,
                n >= 1,
        ;
    }
}

/// Computes the two header-checksum octets over the header bytes as they
/// stand (the checksum slots still holding their sentinel values).
pub fn checksum_pair(h: &Vec<u8>) -> (r: (u8, u8))
    requires
        9 <= h@.len() <= 255,
    ensures
        r.0 == ck_x(h@),
        r.1 == ck_y(h@),
{
    let l: usize = h.len();
    let mut c0: u64 = 0;
    let mut c1: u64 = 0;
    let mut i: usize = 0;
    while i < l
        invariant
            i <= l,
            l == h@.len(),
            9 <= l <= 255,
            c0 == sum0(h@.take(i as int)),
            c1 == sum1(h@.take(i as int)),
        decreases l - i,
    {
        proof {
            assert(h@.take(i + 1) =~= h@.take(i as int).push(h@[i as int]));
            lemma_sum_push(h@.take(i as int), h@[i as int]);
            lemma_sum_bounds(h@.take(i as int));
            lemma_sum_bounds(h@.take(i + 1));
            assert(255 * (i as int) * (i as int) <= 255 * 255 * 255) by (nonlinear_arith)
                requires
                    0 <= i <= 255,
            ;
            assert(255 * (i + 1) * (i + 1) <= 255 * 255 * 255) by (nonlinear_arith)
                requires
                    0 <= i + 1 <= 255,
            ;
        }
        c0 = c0 + (h[i] as u64);
        c1 = c1 + c0;
        i = i + 1;
    }
    proof {
        assert(h@.take(l as int) =~= h@);
        lemma_sum_bounds(h@);
        assert(255 * l * l <= 255 * 255 * 255) by (nonlinear_arith)
            requires
                l <= 255,
        ;
    }
    let lx: u64 = l as u64;
    let big: u64 = 16711680;  // 255 * 65536, larger than any reachable accumulator value
    proof {
        assert((lx - 8) * c0 <= 247 * 65025) by (nonlinear_arith)
            requires
                1 <= lx - 8 <= 247,
                0 <= c0 <= 65025,
        ;
        assert((lx - 7) * c0 <= 248 * 65025) by (nonlinear_arith)
            requires
                1 <= lx - 7 <= 248,
                0 <= c0 <= 65025,
        ;
    }
    let xr: u64 = ((lx - 8) * c0 + (big - c1)) % 255;
    let yr: u64 = (c1 + (big - (lx - 7) * c0)) % 255;
    proof {
        vstd::arithmetic::div_mod::lemma_mod_multiples_vanish(
            65536,
            (lx - 8) * c0 - c1,
            255,
        );
        vstd::arithmetic::div_mod::lemma_mod_multiples_vanish(
            65536,
            c1 - (lx - 7) * c0,
            255,
        );
        assert((lx - 7) * (-(c0 as int)) == c1 - (lx - 7) * c0 - c1 + 0) by (nonlinear_arith)
            requires
                true,
        ;
    }
    let x: u8 = if xr == 0 {
        255
    } else {
        xr as u8
    };
    let y: u8 = if yr == 0 {
        255
    } else {
        yr as u8
    };
    (x, y)
}

/// Fixed part read back from the first nine octets of a received buffer.
pub open spec fn spec_fixed_of(s: Seq<u8>) -> NFixedPart
    recommends
        s.len() >= 9,
{
    NFixedPart {
        network_layer_protocol_identifier: s[0],
        length_indicator: Some(s[1]),
        version_protocol_id_extension: s[2],
        lifetime: s[3],
        sp_segmentation_permitted: spec_o5_sp(s[4]),
        ms_more_segments: spec_o5_ms(s[4]),
        er_error_report: spec_o5_er(s[4]),
        type_: spec_o5_type(s[4]),
        segment_length: Some(spec_u16_of(s[5], s[6])),
        checksum: (s[7], s[8]),
    }
}

/// Address part read back from its region of a received buffer: destination
/// bytes, source bytes, and the region's length. The lengths are not fixed
/// and are read sequentially; a region too short for either address is a
/// protocol violation.
pub open spec fn spec_addr_parse(a: Seq<u8>) -> Result<(Seq<u8>, Seq<u8>, int), ClnpError> {
    if a.len() < 1 {
        Err(ClnpError::ProtocolViolation)
    } else {
        let dl = a[0] as int;
        if a.len() < 2 + dl {
            Err(ClnpError::ProtocolViolation)
        } else {
            let sl = a[1 + dl] as int;
            if a.len() < 2 + dl + sl {
                Err(ClnpError::ProtocolViolation)
            } else {
                Ok((a.subrange(1, 1 + dl), a.subrange(2 + dl, 2 + dl + sl), 2 + dl + sl))
            }
        }
    }
}

/// Segmentation part read back from the first six octets of its region.
pub open spec fn spec_seg_of(a: Seq<u8>) -> NSegmentationPart
    recommends
        a.len() >= 6,
{
    NSegmentationPart {
        data_unit_identifier: spec_u16_of(a[0], a[1]),
        segment_offset: spec_u16_of(a[2], a[3]),
        total_length: spec_u16_of(a[4], a[5]),
    }
}

/// What a received buffer decodes to: the PDU model, or the error a decoder
/// must report. Truncated buffers, unknown protocol identifiers and type
/// codes, and a more-segments flag without segmentation permitted are
/// protocol violations; Error Report PDUs, segmented PDUs and PDUs carrying
/// an options part are outside the supported subset.
pub open spec fn spec_decode(s: Seq<u8>) -> Result<PduM, ClnpError> {
    if s.len() < 1 {
        Err(ClnpError::ProtocolViolation)
    } else if s[0] == NETWORK_LAYER_PROTOCOL_IDENTIFIER_CLNP_INACTIVE {
        Ok(PduM::Inactive { npid: s[0], data: s.skip(1) })
    } else if s[0] != NETWORK_LAYER_PROTOCOL_IDENTIFIER_CLNP_FULL {
        Err(ClnpError::ProtocolViolation)
    } else if s.len() < 5 {
        Err(ClnpError::ProtocolViolation)
    } else {
        let t = spec_o5_type(s[4]);
        if t == TYPE_ER_PDU {
            Err(ClnpError::NotImplemented)
        } else if !(t == TYPE_DT_PDU || t == TYPE_MD_PDU || t == TYPE_ERQ_PDU || t
            == TYPE_ERP_PDU) {
            Err(ClnpError::ProtocolViolation)
        } else if s.len() < 9 {
            Err(ClnpError::ProtocolViolation)
        } else {
            let f = spec_fixed_of(s);
            if f.ms_more_segments && !f.sp_segmentation_permitted {
                Err(ClnpError::ProtocolViolation)
            } else if f.ms_more_segments {
                Err(ClnpError::NotImplemented)
            } else {
                spec_decode_tail(s, f, t)
            }
        }
    }
}

/// Address part, segmentation part, options length and data part of a
/// received full-subset buffer whose fixed part was accepted.
pub open spec fn spec_decode_tail(s: Seq<u8>, f: NFixedPart, t: u8) -> Result<PduM, ClnpError> {
    match spec_addr_parse(s.skip(9)) {
        Err(e) => Err(e),
        Ok((dest, src, alen)) => {
            let seg_start = 9 + alen;
            if f.sp_segmentation_permitted && s.len() < seg_start + 6 {
                Err(ClnpError::ProtocolViolation)
            } else {
                let seg = if f.sp_segmentation_permitted {
                    Some(spec_seg_of(s.skip(seg_start)))
                } else {
                    Option::<NSegmentationPart>::None
                };
                let seg_end = seg_start + if f.sp_segmentation_permitted {
                    6int
                } else {
                    0int
                };
                let li = s[1] as int;
                if li < seg_end {
                    Err(ClnpError::ProtocolViolation)
                } else if li > seg_end {
                    Err(ClnpError::NotImplemented)
                } else {
                    let sl16 = spec_u16_of(s[5], s[6]) as int;
                    // the invalid/ignore segment-length sentinel leaves the
                    // data extent to the enclosing frame
                    let data_end = if sl16 == 0 {
                        s.len() as int
                    } else {
                        sl16
                    };
                    if sl16 != 0 && sl16 < li {
                        Err(ClnpError::ProtocolViolation)
                    } else if sl16 != 0 && s.len() < sl16 {
                        Err(ClnpError::ProtocolViolation)
                    } else {
                        let dat = Some(s.subrange(li, data_end));
                        if t == TYPE_DT_PDU {
                            Ok(PduM::Data { fixed: f, dest, src, seg, data: dat })
                        } else if t == TYPE_MD_PDU {
                            Ok(PduM::MulticastData { fixed: f, dest, src, seg, data: dat })
                        } else if t == TYPE_ERQ_PDU {
                            Ok(PduM::EchoRequest { fixed: f, dest, src, seg, data: dat })
                        } else {
                            Ok(PduM::EchoResponse { fixed: f, dest, src, seg, data: dat })
                        }
                    }
                }
            }
        },
    }
}

/// Encoding is a function of a PDU's logical content alone: two PDUs with
/// the same fields encode, checksums included, to the same bytes.
pub proof fn lemma_encode_deterministic(p1: Pdu, p2: Pdu, checksum_option: bool)
    requires
        p1@ == p2@,
    ensures
        spec_encode(p1@, checksum_option) == spec_encode(p2@, checksum_option),
{
}

/// A correlated echo response is always reported with a non-negative round
/// trip time.
pub proof fn lemma_rtt_nonnegative(now: int, sent: int)
    ensures
        spec_rtt(now, sent) >= 0,
{
}

/// Both checksum octets are always in the range one to 255: a computed zero
/// is remapped to 255, so the all-zero sentinel can never be produced by the
/// checksum algorithm.
pub proof fn lemma_checksum_bytes_nonzero(h: Seq<u8>)
    ensures
        1 <= ck_x(h) <= 255,
        1 <= ck_y(h) <= 255,
{
}

/// Writing the two computed checksum octets into a header whose checksum
/// slots held the zero sentinel makes both running sums of the header vanish
/// modulo 255: the header error-detection check passes.
pub proof fn lemma_checksum_fills_header(h0: Seq<u8>)
    requires
        9 <= h0.len() <= 255,
        h0[7] == 0,
        h0[8] == 0,
    ensures
        sum0(h0.update(7, ck_x(h0)).update(8, ck_y(h0))) % 255 == 0,
        sum1(h0.update(7, ck_x(h0)).update(8, ck_y(h0))) % 255 == 0,
{
    let l = h0.len() as int;
    let c0 = sum0(h0);
    let c1 = sum1(h0);
    let a = (l - 8) * c0 - c1;
    let b = (l - 7) * (-c0) + c1;
    let x = ck_x(h0);
    let y = ck_y(h0);
    assert((l - 7) * (-c0) == -((l - 7) * c0)) by (nonlinear_arith);
    vstd::arithmetic::div_mod::lemma_mod_bound(a, 255);
    vstd::arithmetic::div_mod::lemma_mod_bound(b, 255);
    if a % 255 == 0 {
        assert(x == 255);
    } else {
        vstd::arithmetic::div_mod::lemma_small_mod((a % 255) as nat, 255);
    }
    if b % 255 == 0 {
        assert(y == 255);
    } else {
        vstd::arithmetic::div_mod::lemma_small_mod((b % 255) as nat, 255);
    }
    assert((x as int) % 255 == a % 255);
    assert((y as int) % 255 == b % 255);
    vstd::arithmetic::div_mod::lemma_sub_mod_noop(x as int, a, 255);
    vstd::arithmetic::div_mod::lemma_sub_mod_noop(y as int, b, 255);
    assert((x - a) % 255 == 0);
    assert((y - b) % 255 == 0);
    vstd::arithmetic::div_mod::lemma_fundamental_div_mod(x - a, 255);
    vstd::arithmetic::div_mod::lemma_fundamental_div_mod(y - b, 255);
    let j1 = (x - a) / 255;
    let j2 = (y - b) / 255;
    assert(x == a + 255 * j1);
    assert(y == b + 255 * j2);
    let h1 = h0.update(7, x);
    let h = h1.update(8, y);
    lemma_sum0_update(h0, 7, x);
    lemma_sum1_update(h0, 7, x);
    assert(h1[8] == 0);
    lemma_sum0_update(h1, 8, y);
    lemma_sum1_update(h1, 8, y);
    assert(sum0(h) == c0 + x + y);
    assert(sum1(h) == c1 + (l - 7) * x + (l - 8) * y) by (nonlinear_arith)
        requires
            sum1(h1) == c1 + (l - 7) * (x - 0),
            sum1(h) == sum1(h1) + (l - 8) * (y - 0),
    ;
    assert(c0 + a + b == 0) by (nonlinear_arith)
        requires
            a == (l - 8) * c0 - c1,
            b == -((l - 7) * c0) + c1,
    ;
    assert(sum0(h) == 255 * (j1 + j2) + 0) by (nonlinear_arith)
        requires
            sum0(h) == c0 + x + y,
            x == a + 255 * j1,
            y == b + 255 * j2,
            c0 + a + b == 0,
    ;
    vstd::arithmetic::div_mod::lemma_mod_multiples_vanish(j1 + j2, 0, 255);
    assert(c1 + (l - 7) * a + (l - 8) * b == 0) by (nonlinear_arith)
        requires
            a == (l - 8) * c0 - c1,
            b == -((l - 7) * c0) + c1,
    ;
    assert(sum1(h) == 255 * ((l - 7) * j1 + (l - 8) * j2) + 0) by (nonlinear_arith)
        requires
            sum1(h) == c1 + (l - 7) * x + (l - 8) * y,
            x == a + 255 * j1,
            y == b + 255 * j2,
            c1 + (l - 7) * a + (l - 8) * b == 0,
    ;
    vstd::arithmetic::div_mod::lemma_mod_multiples_vanish((l - 7) * j1 + (l - 8) * j2, 0, 255);
}

/// A PDU model the encoder maps onto the wire losslessly: a data-family
/// layout whose fixed part is consistent with the variant and the parts
/// present, or an inactive-subset PDU with its own protocol identifier.
pub open spec fn wf_encode(m: PduM) -> bool {
    match m {
        PduM::Inactive { npid, .. } => npid == NETWORK_LAYER_PROTOCOL_IDENTIFIER_CLNP_INACTIVE
            && m.wire_fits(),
        PduM::ErrorReport { .. } => false,
        _ => {
            let f = m.fixed();
            &&& m.wire_fits()
            &&& f.network_layer_protocol_identifier
                == NETWORK_LAYER_PROTOCOL_IDENTIFIER_CLNP_FULL
            &&& f.type_ == m.variant_type_code()
            &&& !f.ms_more_segments
            &&& (f.sp_segmentation_permitted <==> m.seg() is Some)
        },
    }
}

/// The model the decoder reproduces from an encoded PDU: the same logical
/// fields, with the derived length indicator and segment length filled in, a
/// present (possibly empty) data part, and the checksum octets the encoder
/// wrote.
pub open spec fn spec_normalize(m: PduM, checksum_option: bool) -> PduM {
    if m is Inactive {
        m
    } else {
        let f = m.fixed();
        let h0 = spec_header_zero(m);
        let nf = NFixedPart {
            network_layer_protocol_identifier: f.network_layer_protocol_identifier,
            length_indicator: Some(m.header_len() as u8),
            version_protocol_id_extension: f.version_protocol_id_extension,
            lifetime: f.lifetime,
            sp_segmentation_permitted: f.sp_segmentation_permitted,
            ms_more_segments: f.ms_more_segments,
            er_error_report: f.er_error_report,
            type_: f.type_,
            segment_length: Some(spec_seg_len_field(f, m.total_len())),
            checksum: if checksum_option {
                (ck_x(h0), ck_y(h0))
            } else {
                f.checksum
            },
        };
        match m {
            PduM::Data { .. } => PduM::Data {
                fixed: nf,
                dest: m.dest(),
                src: m.src(),
                seg: m.seg(),
                data: Some(m.payload()),
            },
            PduM::EchoRequest { .. } => PduM::EchoRequest {
                fixed: nf,
                dest: m.dest(),
                src: m.src(),
                seg: m.seg(),
                data: Some(m.payload()),
            },
            PduM::EchoResponse { .. } => PduM::EchoResponse {
                fixed: nf,
                dest: m.dest(),
                src: m.src(),
                seg: m.seg(),
                data: Some(m.payload()),
            },
            PduM::MulticastData { .. } => PduM::MulticastData {
                fixed: nf,
                dest: m.dest(),
                src: m.src(),
                seg: m.seg(),
                data: Some(m.payload()),
            },
            PduM::ErrorReport { .. } => m,
            PduM::Inactive { .. } => m,
        }
    }
}

/// The header the encoder builds is exactly as long as the header length
/// indicator it writes.
pub proof fn lemma_header_zero_len(m: PduM)
    requires
        m.is_data_family(),
    ensures
        spec_header_zero(m).len() == m.header_len(),
{
    if m.seg() is Some {
        assert(spec_seg_bytes(m.seg()).len() == 6);
    } else {
        assert(spec_seg_bytes(m.seg()).len() == 0);
    }
}

/// Round trip of the codec: decoding an encoded PDU gives back the same
/// logical fields — flags, type, addresses, segmentation values and payload
/// — with the derived length fields and checksum octets filled in.
#[verifier::rlimit(100)]
pub proof fn lemma_round_trip(m: PduM, checksum_option: bool)
    requires
        wf_encode(m),
    ensures
        spec_decode(spec_encode(m, checksum_option)) == Ok::<PduM, ClnpError>(
            spec_normalize(m, checksum_option),
        ),
{
    if m is Inactive {
        let s = spec_encode(m, checksum_option);
        assert(s[0] == m->Inactive_npid);
        assert(s.skip(1) =~= m->Inactive_data);
    } else {
        let f = m.fixed();
        let dest = m.dest();
        let src = m.src();
        let seg = m.seg();
        let pay = m.payload();
        let dl = dest.len() as int;
        let sl = src.len() as int;
        let segb = spec_seg_bytes(seg);
        let hlen = m.header_len();
        let total = m.total_len();
        let h0 = spec_header_zero(m);
        lemma_header_zero_len(m);
        if seg is Some {
            assert(segb.len() == 6);
        } else {
            assert(segb.len() == 0);
        }
        let x = ck_x(h0);
        let y = ck_y(h0);
        let h = if checksum_option {
            h0.update(7, x).update(8, y)
        } else {
            h0
        };
        let s = spec_encode(m, checksum_option);
        assert(s == h + pay);
        assert(s.len() == total);
        lemma_octet5_round_trip(
            f.sp_segmentation_permitted,
            f.ms_more_segments,
            f.er_error_report,
            f.type_,
        );
        let slf = spec_seg_len_field(f, total);
        lemma_u16_be_round_trip(slf);
        // the first nine octets, untouched by the checksum slots or with them
        // filled in
        assert(s[0] == f.network_layer_protocol_identifier);
        assert(s[1] == hlen as u8);
        assert(s[2] == f.version_protocol_id_extension);
        assert(s[3] == f.lifetime);
        assert(s[4] == spec_octet5(
            f.sp_segmentation_permitted,
            f.ms_more_segments,
            f.er_error_report,
            f.type_,
        ));
        assert(s[5] == spec_u16_hi(slf));
        assert(s[6] == spec_u16_lo(slf));
        if checksum_option {
            assert(s[7] == x);
            assert(s[8] == y);
        } else {
            assert(s[7] == f.checksum.0);
            assert(s[8] == f.checksum.1);
        }
        // the remainder after the fixed part: address part, segmentation
        // part, payload
        let tail = seq![dl as u8] + dest + seq![sl as u8] + src + segb + pay;
        assert(s.skip(9) =~= tail);
        assert(spec_u16_of(s[5], s[6]) == slf);
        // a derived segment length is never zero (the header alone has at
        // least eleven octets), so the sentinel case is unambiguous
        assert(slf == 0 ==> f.segment_length == Some(0u16));
        // type code and flags come back from octet five
        let t = spec_o5_type(s[4]);
        assert(t == f.type_);
        assert(spec_o5_sp(s[4]) == f.sp_segmentation_permitted);
        assert(spec_o5_ms(s[4]) == f.ms_more_segments);
        assert(spec_o5_er(s[4]) == f.er_error_report);
        // the address part parses back to the two addresses
        assert(tail[0] == dl as u8);
        assert(dl <= 244);
        assert(tail.len() == 2 + dl + sl + segb.len() + pay.len());
        assert(tail[1 + dl] == sl as u8);
        assert(tail.subrange(1, 1 + dl) =~= dest);
        assert(tail.subrange(2 + dl, 2 + dl + sl) =~= src);
        assert(spec_addr_parse(s.skip(9)) == Ok::<(Seq<u8>, Seq<u8>, int), ClnpError>(
            (dest, src, 2 + dl + sl),
        ));
        let seg_start = 11 + dl + sl;
        // the segmentation part parses back to its three fields
        if seg is Some {
            let sg = seg->0;
            assert(s.skip(seg_start) =~= segb + pay);
            lemma_u16_be_round_trip(sg.data_unit_identifier);
            lemma_u16_be_round_trip(sg.segment_offset);
            lemma_u16_be_round_trip(sg.total_length);
            assert((segb + pay)[0] == spec_u16_hi(sg.data_unit_identifier));
            assert((segb + pay)[1] == spec_u16_lo(sg.data_unit_identifier));
            assert((segb + pay)[2] == spec_u16_hi(sg.segment_offset));
            assert((segb + pay)[3] == spec_u16_lo(sg.segment_offset));
            assert((segb + pay)[4] == spec_u16_hi(sg.total_length));
            assert((segb + pay)[5] == spec_u16_lo(sg.total_length));
            assert(spec_seg_of(s.skip(seg_start)) == sg);
        }
        // header length indicator and segment length line up with the parts
        assert(s[1] as int == hlen);
        assert(s.subrange(hlen, total) =~= pay);
        let d = spec_decode(s);
        let n = spec_normalize(m, checksum_option);
        assert(spec_fixed_of(s) == n.fixed());
        assert(d == Ok::<PduM, ClnpError>(n));
    }
}

/// The inner Echo Response PDU the echo request function composes: the outer
/// addressing swapped, the segment length and checksum both held at their
/// protocol-mandated invalid sentinels, and the correlation token as data.
pub open spec fn spec_echo_inner(source: Nsap, destination: Nsap, token: Seq<u8>) -> PduM {
    PduM::EchoResponse {
        fixed: NFixedPart {
            network_layer_protocol_identifier: NETWORK_LAYER_PROTOCOL_IDENTIFIER_CLNP_FULL,
            length_indicator: None,
            version_protocol_id_extension: VERSION_PROTOCOL_ID_EXTENSION_1,
            lifetime: 20,
            sp_segmentation_permitted: false,
            ms_more_segments: false,
            er_error_report: false,
            type_: TYPE_ERP_PDU,
            segment_length: Some(0u16),
            checksum: (0u8, 0u8),
        },
        dest: spec_nsap_bytes(source),
        src: spec_nsap_bytes(destination),
        seg: None,
        data: Some(token),
    }
}

/// The outer Echo Request PDU the echo request function composes: ordinary
/// addressing, and the encoded inner Echo Response PDU as its data part.
pub open spec fn spec_echo_outer(source: Nsap, destination: Nsap, token: Seq<u8>) -> PduM {
    PduM::EchoRequest {
        fixed: NFixedPart {
            network_layer_protocol_identifier: NETWORK_LAYER_PROTOCOL_IDENTIFIER_CLNP_FULL,
            length_indicator: None,
            version_protocol_id_extension: VERSION_PROTOCOL_ID_EXTENSION_1,
            lifetime: 20,
            sp_segmentation_permitted: false,
            ms_more_segments: false,
            er_error_report: false,
            type_: TYPE_ERQ_PDU,
            segment_length: None,
            checksum: (0u8, 0u8),
        },
        dest: spec_nsap_bytes(destination),
        src: spec_nsap_bytes(source),
        seg: None,
        data: Some(spec_encode(spec_echo_inner(source, destination, token), false)),
    }
}

/// Echo nesting: the data part of a composed Echo Request PDU, decoded
/// again, is an Echo Response PDU whose addressing is the outer addressing
/// swapped and whose data part is exactly the correlation token.
pub proof fn lemma_echo_nesting(source: Nsap, destination: Nsap, token: Seq<u8>)
    requires
        token.len() + 74 <= 65535,
    ensures
        ({
            let outer = spec_echo_outer(source, destination, token);
            let inner = spec_decode(outer.payload());
            &&& inner is Ok
            &&& inner->Ok_0 is EchoResponse
            &&& inner->Ok_0.dest() == outer.src()
            &&& inner->Ok_0.src() == outer.dest()
            &&& inner->Ok_0.payload() == token
        }),
{
    let im = spec_echo_inner(source, destination, token);
    assert(spec_nsap_bytes(source).len() == 12);
    assert(spec_nsap_bytes(destination).len() == 12);
    lemma_round_trip(im, false);
}

/// An encoded PDU produced with the checksum option carries a checksum that
/// itself validates: over the header octets of the encoding, both running
/// sums of the header error-detection check vanish modulo 255.
pub proof fn lemma_encode_checksum_validates(m: PduM)
    requires
        wf_encode(m),
        !(m is Inactive),
        m.fixed().checksum == (0u8, 0u8),
    ensures
        sum0(spec_encode(m, true).take(m.header_len())) % 255 == 0,
        sum1(spec_encode(m, true).take(m.header_len())) % 255 == 0,
{
    let h0 = spec_header_zero(m);
    lemma_header_zero_len(m);
    assert(h0[7] == 0);
    assert(h0[8] == 0);
    lemma_checksum_fills_header(h0);
    assert(spec_encode(m, true).take(m.header_len()) =~= h0.update(7, ck_x(h0)).update(
        8,
        ck_y(h0),
    ));
}

/// Size in bytes of an optional options part: zero when absent.
pub open spec fn spec_opts_len_opt(opts: Option<NOptionsPart>) -> int {
    match opts {
        Some(o) => spec_opts_len(o.params@),
        None => 0,
    }
}

impl NFixedPart {
    /// The bits of octet five of the fixed part; `None` when the type code
    /// does not fit its five bits.
    pub fn compose_octet5(sp_segmentation_permitted: bool, ms_more_segments: bool,
        er_error_report: bool, type_: u8) -> (r: Option<u8>)
        ensures
            type_ >= 32 ==> r is None,
            type_ < 32 ==> r == Some(
                spec_octet5(sp_segmentation_permitted, ms_more_segments, er_error_report, type_),
            ),
    {
        if type_ >= 32 {
            // only five bits of space (0 to 31)
            return None;
        }
        Some(
            Self::compose_octet5_unchecked(
                sp_segmentation_permitted,
                ms_more_segments,
                er_error_report,
                type_,
            ),
        )
    }

    /// The bits of octet five of the fixed part; a type code wider than five
    /// bits simply spills into the flag bits.
    pub fn compose_octet5_unchecked(sp_segmentation_permitted: bool, ms_more_segments: bool,
        er_error_report: bool, type_: u8) -> (r: u8)
        ensures
            r == spec_octet5(sp_segmentation_permitted, ms_more_segments, er_error_report, type_),
    {
        (if sp_segmentation_permitted {
            0x80u8
        } else {
            0u8
        }) | (if ms_more_segments {
            0x40u8
        } else {
            0u8
        }) | (if er_error_report {
            0x20u8
        } else {
            0u8
        }) | type_
    }

    /// The three flags and the five-bit type code packed in octet five.
    pub fn decompose_octet5(octet5: &u8) -> (r: (bool, bool, bool, u8))
        ensures
            r.0 == spec_o5_sp(*octet5),
            r.1 == spec_o5_ms(*octet5),
            r.2 == spec_o5_er(*octet5),
            r.3 == spec_o5_type(*octet5),
    {
        ((*octet5 & 0x80) != 0, (*octet5 & 0x40) != 0, (*octet5 & 0x20) != 0, *octet5 & 0x1F)
    }

    /// Reads the fixed part back from the front of a received buffer and
    /// reports whether a segmentation part follows it.
    pub fn from_buf(buffer: &[u8]) -> (r: Result<(NFixedPart, bool), ClnpError>)
        ensures
            buffer@.len() < 9 ==> r is Err && r->Err_0 == ClnpError::ProtocolViolation,
            buffer@.len() >= 9 ==> r is Ok && r->Ok_0.0 == spec_fixed_of(buffer@) && r->Ok_0.1
                == spec_o5_sp(buffer@[4]),
    {
        if buffer.len() < 9 {
            return Err(ClnpError::ProtocolViolation);
        }
        let (sp, ms, er, t) = Self::decompose_octet5(&buffer[4]);
        let fixed_part = NFixedPart {
            network_layer_protocol_identifier: buffer[0],
            length_indicator: Some(buffer[1]),
            version_protocol_id_extension: buffer[2],
            lifetime: buffer[3],
            sp_segmentation_permitted: sp,
            ms_more_segments: ms,
            er_error_report: er,
            type_: t,
            segment_length: Some(u16_of(buffer[5], buffer[6])),
            checksum: (buffer[7], buffer[8]),
        };
        Ok((fixed_part, sp))
    }
}

/// A fresh vector holding `s[from..to]`.
fn copy_range(s: &[u8], from: usize, to: usize) -> (r: Vec<u8>)
    requires
        from <= to <= s@.len(),
    ensures
        r@ == s@.subrange(from as int, to as int),
{
    let mut r: Vec<u8> = Vec::new();
    let mut i: usize = from;
    while i < to
        invariant
            from <= i <= to <= s@.len(),
            r@ == s@.subrange(from as int, i as int),
        decreases to - i,
    {
        r.push(s[i]);
        proof {
            assert(s@.subrange(from as int, i + 1) =~= s@.subrange(from as int, i as int).push(
                s@[i as int],
            ));
        }
        i = i + 1;
    }
    r
}

impl NAddressPart {
    /// Reads the address part back from its region of a received buffer and
    /// reports the region's length.
    pub fn from_buf(buffer: &[u8]) -> (r: Result<(NAddressPart, usize), ClnpError>)
        ensures
            match spec_addr_parse(buffer@) {
                Ok((dest, src, alen)) => r is Ok && r->Ok_0.0.destination_address@ == dest
                    && r->Ok_0.0.source_address@ == src && r->Ok_0.1 == alen
                    && r->Ok_0.0.destination_address_length_indicator == Some(dest.len() as u8)
                    && r->Ok_0.0.source_address_length_indicator == Some(src.len() as u8),
                Err(e) => r is Err && r->Err_0 == e,
            },
    {
        if buffer.len() < 1 {
            // one byte for each address length indicator at the very minimum
            return Err(ClnpError::ProtocolViolation);
        }
        let destination_address_length_indicator: u8 = buffer[0];
        let dl = destination_address_length_indicator as usize;
        if buffer.len() < 2 + dl {
            return Err(ClnpError::ProtocolViolation);
        }
        let source_address_length_indicator: u8 = buffer[1 + dl];
        let sl = source_address_length_indicator as usize;
        if buffer.len() < 2 + dl + sl {
            return Err(ClnpError::ProtocolViolation);
        }
        let destination_address = copy_range(buffer, 1, 1 + dl);
        let source_address = copy_range(buffer, 2 + dl, 2 + dl + sl);
        let address_part = NAddressPart {
            destination_address_length_indicator: Some(destination_address_length_indicator),
            destination_address,
            source_address_length_indicator: Some(source_address_length_indicator),
            source_address,
        };
        Ok((address_part, 2 + dl + sl))
    }
}

impl NSegmentationPart {
    /// Reads the segmentation part back from the front of its region of a
    /// received buffer; the region's used length is always six octets.
    pub fn from_buf(buffer: &[u8]) -> (r: Result<(Option<NSegmentationPart>, usize), ClnpError>)
        ensures
            buffer@.len() < 6 ==> r is Err && r->Err_0 == ClnpError::ProtocolViolation,
            buffer@.len() >= 6 ==> r is Ok && r->Ok_0.0 == Some(spec_seg_of(buffer@))
                && r->Ok_0.1 == 6usize,
    {
        if buffer.len() < 6 {
            return Err(ClnpError::ProtocolViolation);
        }
        let segmentation_part = NSegmentationPart {
            data_unit_identifier: u16_of(buffer[0], buffer[1]),
            segment_offset: u16_of(buffer[2], buffer[3]),
            total_length: u16_of(buffer[4], buffer[5]),
        };
        // the decision between None and Some is made by the caller
        Ok((Some(segmentation_part), 6))
    }
}

/// Size in bytes of an options part: a code and a length octet, then the
/// value bytes, for each parameter.
pub open spec fn spec_opts_len(ps: Seq<NParameter>) -> int
    decreases ps.len(),
{
    if ps.len() == 0 {
        0
    } else {
        spec_opts_len(ps.drop_last()) + 2 + ps.last().parameter_value@.len()
    }
}

/// The size of an options part never shrinks as parameters are appended.
pub proof fn lemma_opts_len_take_le(ps: Seq<NParameter>, i: int)
    requires
        0 <= i <= ps.len(),
    ensures
        0 <= spec_opts_len(ps.take(i)) <= spec_opts_len(ps),
    decreases ps.len(),
{
    if ps.len() == 0 {
        assert(ps.take(i) =~= ps);
    } else if i == ps.len() {
        assert(ps.take(i) =~= ps);
        lemma_opts_len_take_le(ps.drop_last(), ps.len() - 1);
    } else {
        assert(ps.drop_last().take(i) =~= ps.take(i));
        lemma_opts_len_take_le(ps.drop_last(), i);
    }
}

impl NOptionsPart {
    /// Size in bytes of this options part on the wire.
    pub fn len_bytes(&self) -> (r: usize)
        requires
            spec_opts_len(self.params@) <= usize::MAX,
        ensures
            r == spec_opts_len(self.params@),
    {
        let mut bytes: usize = 0;
        let mut i: usize = 0;
        while i < self.params.len()
            invariant
                i <= self.params@.len(),
                bytes == spec_opts_len(self.params@.take(i as int)),
                spec_opts_len(self.params@) <= usize::MAX,
            decreases self.params@.len() - i,
        {
            proof {
                assert(self.params@.take(i + 1).drop_last() =~= self.params@.take(i as int));
                lemma_opts_len_take_le(self.params@, i + 1);
            }
            bytes = bytes + 2 + self.params[i].parameter_value.len();
            i = i + 1;
        }
        proof {
            assert(self.params@.take(self.params@.len() as int) =~= self.params@);
        }
        bytes
    }

    /// Decoding an options part is not part of the supported protocol
    /// subset.
    pub fn from_buf(buffer: &[u8]) -> (r: Result<Option<NOptionsPart>, ClnpError>)
        ensures
            r is Err && r->Err_0 == ClnpError::NotImplemented,
    {
        Err(ClnpError::NotImplemented)
    }
}

impl NDataPart {
    /// Reads the data part back from its region of a received buffer, given
    /// the data length the fixed part implies.
    pub fn from_buf(buffer: &[u8], data_part_length: usize) -> (r: Result<
        Option<NDataPart>,
        ClnpError,
    >)
        ensures
            buffer@.len() < data_part_length ==> r is Err && r->Err_0
                == ClnpError::ProtocolViolation,
            buffer@.len() >= data_part_length ==> r is Ok && r->Ok_0 is Some
                && r->Ok_0->0.data@ == buffer@.subrange(0, data_part_length as int),
    {
        if buffer.len() < data_part_length {
            return Err(ClnpError::ProtocolViolation);
        }
        Ok(Some(NDataPart { data: copy_range(buffer, 0, data_part_length) }))
    }
}

/// Overwrites the front of `buffer` with `src`, leaving the rest unchanged.
fn copy_into(src: &Vec<u8>, buffer: &mut Vec<u8>)
    requires
        src@.len() <= old(buffer)@.len(),
    ensures
        final(buffer)@.len() == old(buffer)@.len(),
        final(buffer)@ == src@ + old(buffer)@.skip(src@.len() as int),
{
    let n = src.len();
    let mut i: usize = 0;
    while i < n
        invariant
            i <= n,
            n == src@.len() <= buffer@.len(),
            buffer@.len() == old(buffer)@.len(),
            buffer@ == src@.take(i as int) + old(buffer)@.skip(i as int),
        decreases n - i,
    {
        buffer[i] = src[i];
        proof {
            assert(buffer@ =~= src@.take(i + 1) + old(buffer)@.skip(i + 1));
        }
        i = i + 1;
    }
    proof {
        assert(src@.take(n as int) =~= src@);
    }
}

/// Appends the bytes of `src` to `out`.
fn push_bytes(out: &mut Vec<u8>, src: &Vec<u8>)
    requires
        old(out)@.len() + src@.len() <= usize::MAX,
    ensures
        final(out)@ == old(out)@ + src@,
{
    let n = src.len();
    let mut i: usize = 0;
    while i < n
        invariant
            i <= n,
            n == src@.len(),
            out@ == old(out)@ + src@.take(i as int),
        decreases n - i,
    {
        out.push(src[i]);
        proof {
            assert(old(out)@ + src@.take(i + 1) =~= (old(out)@ + src@.take(i as int)).push(
                src@[i as int],
            ));
        }
        i = i + 1;
    }
    proof {
        assert(src@.take(n as int) =~= src@);
    }
}

/// The payload bytes of an optional data part: empty when absent.
pub open spec fn spec_part_payload(data: Option<NDataPart>) -> Seq<u8> {
    match data {
        Some(d) => d.data@,
        None => Seq::empty(),
    }
}

/// Encodes the shared Data/Echo layout into the front of `buffer`.
#[verifier::rlimit(100)]
fn encode_data_family(
    fixed: &NFixedPart,
    addr: &NAddressPart,
    seg: &Option<NSegmentationPart>,
    data: &Option<NDataPart>,
    checksum_option: bool,
    buffer: &mut Vec<u8>,
) -> (r: Result<usize, ClnpError>)
    requires
        spec_header_len_parts(addr.destination_address@, addr.source_address@, *seg) <= 255,
        spec_header_len_parts(addr.destination_address@, addr.source_address@, *seg)
            + spec_part_payload(*data).len() <= 65535,
    ensures
        final(buffer)@.len() == old(buffer)@.len(),
        ({
            let enc = spec_encode_parts(
                *fixed,
                addr.destination_address@,
                addr.source_address@,
                *seg,
                spec_part_payload(*data),
                checksum_option,
            );
            match r {
                Ok(n) => n == enc.len() && n <= old(buffer)@.len()
                    && final(buffer)@ == enc + old(buffer)@.skip(n as int),
                Err(e) => final(buffer)@ == old(buffer)@ && e == ClnpError::BufferTooSmall
                    && old(buffer)@.len() < enc.len(),
            }
        }),
{
    let dlen: usize = addr.destination_address.len();
    let slen: usize = addr.source_address.len();
    let seg_size: usize = if seg.is_some() {
        6
    } else {
        0
    };
    let hlen: usize = 11 + dlen + slen + seg_size;
    let payload_len: usize = match data {
        Some(d) => d.data.len(),
        None => 0,
    };
    let total: usize = hlen + payload_len;
    if buffer.len() < total {
        return Err(ClnpError::BufferTooSmall);
    }
    let octet5 = NFixedPart::compose_octet5_unchecked(
        fixed.sp_segmentation_permitted,
        fixed.ms_more_segments,
        fixed.er_error_report,
        fixed.type_,
    );
    // the segment length is derived, except that the composing sentinel is
    // transmitted as the invalid value
    let seg_len_field: u16 = match fixed.segment_length {
        Some(v) => if v == 0 {
            0
        } else {
            total as u16
        },
        None => total as u16,
    };
    let ghost dest_s = addr.destination_address@;
    let ghost src_s = addr.source_address@;
    let ghost h0 = spec_header_zero_parts(*fixed, dest_s, src_s, *seg, payload_len as int);
    let mut out: Vec<u8> = Vec::new();
    out.push(fixed.network_layer_protocol_identifier);
    out.push(hlen as u8);
    out.push(fixed.version_protocol_id_extension);
    out.push(fixed.lifetime);
    out.push(octet5);
    out.push(u16_hi(seg_len_field));
    out.push(u16_lo(seg_len_field));
    out.push(fixed.checksum.0);
    out.push(fixed.checksum.1);
    out.push(dlen as u8);
    let ghost fix10 = out@;
    push_bytes(&mut out, &addr.destination_address);
    out.push(slen as u8);
    proof {
        assert(out@ =~= fix10 + dest_s + seq![slen as u8]);
    }
    let ghost upto_src = out@;
    push_bytes(&mut out, &addr.source_address);
    match seg {
        Some(s) => {
            out.push(u16_hi(s.data_unit_identifier));
            out.push(u16_lo(s.data_unit_identifier));
            out.push(u16_hi(s.segment_offset));
            out.push(u16_lo(s.segment_offset));
            out.push(u16_hi(s.total_length));
            out.push(u16_lo(s.total_length));
        },
        None => {},
    }
    proof {
        assert(out@ =~= upto_src + src_s + spec_seg_bytes(*seg));
        assert(h0 =~= fix10 + dest_s + seq![slen as u8] + src_s + spec_seg_bytes(*seg));
        assert(out@ =~= h0);
    }
    if checksum_option {
        let (x, y) = checksum_pair(&out);
        out[7] = x;
        out[8] = y;
        proof {
            assert(out@ =~= h0.update(7, ck_x(h0)).update(8, ck_y(h0)));
        }
    }
    let ghost header_done = out@;
    match data {
        Some(d) => {
            push_bytes(&mut out, &d.data);
        },
        None => {},
    }
    proof {
        assert(out@ =~= header_done + spec_part_payload(*data));
        assert(out@ =~= spec_encode_parts(
            *fixed,
            dest_s,
            src_s,
            *seg,
            spec_part_payload(*data),
            checksum_option,
        ));
    }
    copy_into(&out, buffer);
    Ok(total)
}

impl Pdu {
    /// Serializes the PDU into the front of the caller-owned buffer and
    /// returns the byte count written. The sender decides on the checksum
    /// option; without it the two checksum octets keep the field's sentinel
    /// value. A segment length composed as the invalid sentinel zero is
    /// transmitted as such; any other is derived from the parts present.
    /// Composing a Multicast Data or Error Report PDU, or an options part,
    /// is not implemented.
    pub fn into_buf(&self, checksum_option: bool, buffer: &mut Vec<u8>) -> (r: Result<
        usize,
        ClnpError,
    >)
        requires
            self@.wire_fits(),
        ensures
            final(buffer)@.len() == old(buffer)@.len(),
            match r {
                Ok(n) => encodable(*self) && n == spec_encode(self@, checksum_option).len() && n
                    <= old(buffer)@.len() && final(buffer)@ == spec_encode(self@, checksum_option)
                    + old(buffer)@.skip(n as int),
                Err(e) => final(buffer)@ == old(buffer)@ && ((e == ClnpError::NotImplemented
                    && !encodable(*self)) || (e == ClnpError::BufferTooSmall && encodable(*self)
                    && old(buffer)@.len() < spec_encode(self@, checksum_option).len())),
            },
    {
        match self {
            Pdu::Inactive { fixed_mini, data } => {
                let n: usize = 1 + data.data.len();
                if buffer.len() < n {
                    return Err(ClnpError::BufferTooSmall);
                }
                let mut out: Vec<u8> = Vec::new();
                out.push(fixed_mini.network_layer_protocol_identifier);
                push_bytes(&mut out, &data.data);
                proof {
                    assert(out@ =~= spec_encode(self@, checksum_option));
                }
                copy_into(&out, buffer);
                Ok(n)
            },
            Pdu::DataPDU { fixed, addr, seg, opts, discard, data } => {
                if opts.is_some() {
                    return Err(ClnpError::NotImplemented);
                }
                encode_data_family(fixed, addr, seg, data, checksum_option, buffer)
            },
            Pdu::EchoRequestPDU { fixed, addr, seg, opts, discard, data } => {
                if opts.is_some() {
                    return Err(ClnpError::NotImplemented);
                }
                encode_data_family(fixed, addr, seg, data, checksum_option, buffer)
            },
            Pdu::EchoResponsePDU { fixed, addr, seg, opts, discard, data } => {
                if opts.is_some() {
                    return Err(ClnpError::NotImplemented);
                }
                encode_data_family(fixed, addr, seg, data, checksum_option, buffer)
            },
            Pdu::MulticastDataPDU { .. } => Err(ClnpError::NotImplemented),
            Pdu::ErrorReportPDU { .. } => Err(ClnpError::NotImplemented),
        }
    }

    /// The four derived length fields of a PDU under composition: the header
    /// length indicator, the segment length covering header and data, and
    /// the two address length indicators.
    pub fn get_length_indicators(
        fixed: &NFixedPart,
        addr: &NAddressPart,
        seg: &Option<NSegmentationPart>,
        opts: &Option<NOptionsPart>,
        data: &Option<NDataPart>,
    ) -> (r: (u8, u16, u8, u8))
        requires
            spec_header_len_parts(addr.destination_address@, addr.source_address@, *seg)
                + spec_opts_len_opt(*opts) <= 255,
            spec_header_len_parts(addr.destination_address@, addr.source_address@, *seg)
                + spec_opts_len_opt(*opts) + spec_part_payload(*data).len() <= 65535,
        ensures
            r.0 as int == spec_header_len_parts(
                addr.destination_address@,
                addr.source_address@,
                *seg,
            ) + spec_opts_len_opt(*opts),
            r.1 as int == r.0 as int + spec_part_payload(*data).len(),
            r.2 as int == addr.destination_address@.len(),
            r.3 as int == addr.source_address@.len(),
    {
        let opts_len: usize = match opts {
            Some(o) => o.len_bytes(),
            None => 0,
        };
        let seg_len: usize = if seg.is_some() {
            6
        } else {
            0
        };
        let header_len: usize = 11 + addr.destination_address.len() + addr.source_address.len()
            + seg_len + opts_len;
        let data_len: usize = match data {
            Some(d) => d.data.len(),
            None => 0,
        };
        (
            header_len as u8,
            (header_len + data_len) as u16,
            addr.destination_address.len() as u8,
            addr.source_address.len() as u8,
        )
    }

    /// Composes the nested PDU pair of the echo request function: an inner
    /// Echo Response PDU whose addressing is the outer addressing swapped —
    /// the address the far end must reply to — whose segment length and
    /// checksum hold the protocol-mandated invalid sentinels, and whose data
    /// part is the caller's correlation token; encoded (without checksum)
    /// into the scratch buffer and carried verbatim as the data part of the
    /// returned Echo Request PDU, whose own header is fully valid.
    pub fn new_echo_request(
        sp_segmentation_permitted: bool,
        source_address: &Nsap,
        destination_address: &Nsap,
        options: &Option<NOptionsPart>,
        correlation_data: &[u8],
        buffer_scratch: &mut Vec<u8>,
    ) -> (r: Result<Pdu, ClnpError>)
        requires
            correlation_data@.len() + 74 <= 65535,
        ensures
            final(buffer_scratch)@.len() == old(buffer_scratch)@.len(),
            match r {
                Ok(p) => p@ == spec_echo_outer(
                    *source_address,
                    *destination_address,
                    correlation_data@,
                ) && encodable(p) && old(buffer_scratch)@.len() >= 35 + correlation_data@.len(),
                Err(e) => e == ClnpError::BufferTooSmall && old(buffer_scratch)@.len() < 35
                    + correlation_data@.len(),
            },
    {
        proof {
            assert(spec_nsap_bytes(*source_address).len() == 12);
            assert(spec_nsap_bytes(*destination_address).len() == 12);
        }
        // compose the inner Echo Response PDU carried in the Echo Request
        // PDU's data part; its addressing is the outer addressing swapped
        let erp_pdu_destination_address = source_address.to_u8();
        let erp_pdu_source_address = destination_address.to_u8();
        let erp_pdu = Pdu::EchoResponsePDU {
            fixed: NFixedPart {
                network_layer_protocol_identifier: NETWORK_LAYER_PROTOCOL_IDENTIFIER_CLNP_FULL,
                length_indicator: None,  // derived during encoding
                version_protocol_id_extension: VERSION_PROTOCOL_ID_EXTENSION_1,
                lifetime: 20,  // ten seconds, in units of 500 milliseconds
                sp_segmentation_permitted: false,
                ms_more_segments: false,
                er_error_report: false,
                type_: TYPE_ERP_PDU,
                segment_length: Some(0),  // an invalid value, transmitted this way
                checksum: (0, 0),  // an invalid value, transmitted this way
            },
            addr: NAddressPart {
                destination_address_length_indicator: None,
                destination_address: erp_pdu_destination_address,
                source_address_length_indicator: None,
                source_address: erp_pdu_source_address,
            },
            seg: None,
            opts: None,
            discard: None,
            data: Some(NDataPart { data: copy_range(correlation_data, 0, correlation_data.len()) }),
        };
        proof {
            assert(correlation_data@.subrange(0, correlation_data@.len() as int)
                =~= correlation_data@);
            assert(erp_pdu@ == spec_echo_inner(
                *source_address,
                *destination_address,
                correlation_data@,
            ));
        }
        proof {
            lemma_header_zero_len(erp_pdu@);
            assert(spec_encode(erp_pdu@, false).len() == 35 + correlation_data@.len());
        }
        // the inner PDU travels with the invalid checksum sentinel
        let data_num_bytes = match erp_pdu.into_buf(false, buffer_scratch) {
            Ok(n) => n,
            Err(e) => {
                return Err(ClnpError::BufferTooSmall);
            },
        };
        let erq_data = copy_range(buffer_scratch.as_slice(), 0, data_num_bytes);
        proof {
            assert(erq_data@ =~= spec_encode(
                spec_echo_inner(*source_address, *destination_address, correlation_data@),
                false,
            ));
        }
        // the outer, actual Echo Request PDU; its own header is composed
        // like any other PDU of the non-segmenting subset
        let erq_pdu = Pdu::EchoRequestPDU {
            fixed: NFixedPart {
                network_layer_protocol_identifier: NETWORK_LAYER_PROTOCOL_IDENTIFIER_CLNP_FULL,
                length_indicator: None,  // derived during encoding
                version_protocol_id_extension: VERSION_PROTOCOL_ID_EXTENSION_1,
                lifetime: 20,  // ten seconds, in units of 500 milliseconds
                sp_segmentation_permitted: false,
                ms_more_segments: false,
                er_error_report: false,
                type_: TYPE_ERQ_PDU,
                segment_length: None,  // derived during encoding
                checksum: (0, 0),  // replaced when the sender encodes with checksum
            },
            addr: NAddressPart {
                destination_address_length_indicator: None,
                destination_address: destination_address.to_u8(),
                source_address_length_indicator: None,
                source_address: source_address.to_u8(),
            },
            seg: None,
            opts: None,
            discard: None,
            data: Some(NDataPart { data: erq_data }),
        };
        Ok(erq_pdu)
    }

    /// Decodes a received buffer into a PDU. Every structural defect of the
    /// buffer is reported as a typed error, never a panic: a bad frame must
    /// not take the protocol engine down.
    #[verifier::rlimit(60)]
    pub fn from_buf(buffer: &[u8]) -> (r: Result<Pdu, ClnpError>)
        ensures
            match spec_decode(buffer@) {
                Ok(m) => r is Ok && r->Ok_0@ == m,
                Err(e) => r is Err && r->Err_0 == e,
            },
    {
        let blen = buffer.len();
        if blen < 1 {
            return Err(ClnpError::ProtocolViolation);
        }
        let npid = buffer[0];
        if npid == NETWORK_LAYER_PROTOCOL_IDENTIFIER_CLNP_INACTIVE {
            let data = copy_range(buffer, 1, blen);
            proof {
                assert(data@ =~= buffer@.skip(1));
            }
            return Ok(
                Pdu::Inactive {
                    fixed_mini: NFixedPartMiniForInactive {
                        network_layer_protocol_identifier: npid,
                    },
                    data: NDataPart { data },
                },
            );
        }
        if npid != NETWORK_LAYER_PROTOCOL_IDENTIFIER_CLNP_FULL {
            // unknown protocol identifier
            return Err(ClnpError::ProtocolViolation);
        }
        if blen < 5 {
            return Err(ClnpError::ProtocolViolation);
        }
        // check octet five first: the type code decides the layout
        let (_, _, _, type_) = NFixedPart::decompose_octet5(&buffer[4]);
        if type_ == TYPE_ER_PDU {
            return Err(ClnpError::NotImplemented);
        }
        if !(type_ == TYPE_DT_PDU || type_ == TYPE_MD_PDU || type_ == TYPE_ERQ_PDU || type_
            == TYPE_ERP_PDU) {
            return Err(ClnpError::ProtocolViolation);
        }
        // fixed part
        let (fixed_part, segmentation_part_present) = match NFixedPart::from_buf(buffer) {
            Ok(v) => v,
            Err(e) => {
                return Err(e);
            },
        };
        if fixed_part.ms_more_segments && !fixed_part.sp_segmentation_permitted {
            // combination not allowed
            return Err(ClnpError::ProtocolViolation);
        }
        if fixed_part.ms_more_segments {
            // segmentation has occurred; reassembly is outside the subset
            return Err(ClnpError::NotImplemented);
        }
        // address part
        proof {
            assert(buffer@.subrange(9, blen as int) =~= buffer@.skip(9));
        }
        let (address_part, address_part_length) = match NAddressPart::from_buf(
            &buffer[9..blen],
        ) {
            Ok(v) => v,
            Err(e) => {
                return Err(e);
            },
        };
        // segmentation part
        let seg_start = 9 + address_part_length;
        let (segmentation_part, segmentation_part_length) = if segmentation_part_present {
            proof {
                assert(buffer@.subrange(seg_start as int, blen as int) =~= buffer@.skip(
                    seg_start as int,
                ));
            }
            match NSegmentationPart::from_buf(&buffer[seg_start..blen]) {
                Ok(v) => v,
                Err(e) => {
                    return Err(e);
                },
            }
        } else {
            (None, 0)
        };
        // options part: its length is what the header length indicator has
        // beyond the parts already consumed; zero means absent
        let li = buffer[1] as usize;
        let seg_end = seg_start + segmentation_part_length;
        if li < seg_end {
            return Err(ClnpError::ProtocolViolation);
        }
        if li > seg_end {
            // an options part is present; decoding options is outside the subset
            return Err(ClnpError::NotImplemented);
        }
        let options_part: Option<NOptionsPart> = None;
        // data part: the segment length counts header and data together; its
        // invalid/ignore sentinel leaves the data extent to the enclosing
        // frame
        let segment_length = u16_of(buffer[5], buffer[6]) as usize;
        if segment_length != 0 && segment_length < li {
            return Err(ClnpError::ProtocolViolation);
        }
        if segment_length != 0 && blen < segment_length {
            return Err(ClnpError::ProtocolViolation);
        }
        let data_end = if segment_length == 0 {
            blen
        } else {
            segment_length
        };
        let data_part_length = data_end - li;
        proof {
            assert(buffer@.subrange(li as int, blen as int) =~= buffer@.skip(li as int));
        }
        let data_part = match NDataPart::from_buf(&buffer[li..blen], data_part_length) {
            Ok(v) => v,
            Err(e) => {
                return Err(e);
            },
        };
        proof {
            assert(buffer@.skip(li as int).subrange(0, data_part_length as int) =~= buffer@
                .subrange(li as int, data_end as int));
        }
        let reason_for_discard_part: Option<NReasonForDiscardPart> = None;
        if type_ == TYPE_DT_PDU {
            Ok(
                Pdu::DataPDU {
                    fixed: fixed_part,
                    addr: address_part,
                    seg: segmentation_part,
                    opts: options_part,
                    discard: reason_for_discard_part,
                    data: data_part,
                },
            )
        } else if type_ == TYPE_MD_PDU {
            Ok(
                Pdu::MulticastDataPDU {
                    fixed: fixed_part,
                    addr: address_part,
                    seg: segmentation_part,
                    opts: options_part,
                    discard: reason_for_discard_part,
                    data: data_part,
                },
            )
        } else if type_ == TYPE_ERQ_PDU {
            Ok(
                Pdu::EchoRequestPDU {
                    fixed: fixed_part,
                    addr: address_part,
                    seg: segmentation_part,
                    opts: options_part,
                    discard: reason_for_discard_part,
                    data: data_part,
                },
            )
        } else {
            Ok(
                Pdu::EchoResponsePDU {
                    fixed: fixed_part,
                    addr: address_part,
                    seg: segmentation_part,
                    opts: options_part,
                    discard: reason_for_discard_part,
                    data: data_part,
                },
            )
        }
    }
}

/// Whether the inactive network layer protocol subset may carry traffic
/// between the two addresses. The subset is usable whenever both ends sit on
/// the same broadcast domain, which this engine assumes of all its peers.
pub fn can_use_inactive_subset(ns_source_address: &Nsap, ns_destination_address: &Nsap) -> (r:
    bool)
    ensures
        r == true,
{
    true
}

/// The six bytes a textual physical address parses to, if it parses;
/// which strings are accepted, and what they denote, is fixed by the
/// parser alone.
pub uninterp spec fn mac_of(s: Seq<char>) -> Option<Seq<u8>>;

#[verifier::external_type_specification]
#[verifier::external_body]
pub struct ExParseError(advmac::ParseError);

/// Relies on advmac::MacAddr6::parse_str: whether a string parses, and to
/// what six bytes, depends on the characters alone.
#[verifier::external_body]
pub fn parse_macaddr(instr: &str) -> (r: Result<[u8; 6], advmac::ParseError>)
    ensures
        match r {
            Ok(b) => mac_of(instr@) == Some(b@),
            Err(_) => mac_of(instr@) is None,
        },
{
    match advmac::MacAddr6::parse_str(instr) {
        Ok(m) => Ok(m.to_array()),
        Err(e) => Err(e),
    }
}

/// Relies on rand::random: a pseudo-random sixteen-bit correlation token.
/// Nothing is promised of its value.
#[verifier::external_body]
fn random_u16() -> (r: u16) {
    rand::random::<u16>()
}

/// Relies on chrono::Utc::now and chrono::DateTime::timestamp_millis: the
/// current time as milliseconds since the Unix epoch. Nothing is promised of
/// its value.
#[verifier::external_body]
fn now_ms() -> (r: i64) {
    chrono::Utc::now().timestamp_millis()
}

/// First-match lookup in the echo correlation table: the issue time recorded
/// under a token.
pub open spec fn tbl_lookup(t: Seq<(u16, i64)>, k: u16) -> Option<i64>
    decreases t.len(),
{
    if t.len() == 0 {
        None
    } else if t[0].0 == k {
        Some(t[0].1)
    } else {
        tbl_lookup(t.drop_first(), k)
    }
}

/// Every token keys at most one entry of the correlation table.
pub open spec fn tbl_unique(t: Seq<(u16, i64)>) -> bool {
    forall|i: int, j: int| 0 <= i < j < t.len() ==> t[i].0 != t[j].0
}

/// A token found at an index is what lookup returns, when tokens are unique.
pub proof fn lemma_tbl_lookup_at(t: Seq<(u16, i64)>, i: int)
    requires
        tbl_unique(t),
        0 <= i < t.len(),
    ensures
        tbl_lookup(t, t[i].0) == Some(t[i].1),
    decreases t.len(),
{
    if i > 0 {
        assert(tbl_unique(t.drop_first())) by {
            assert(forall|x: int, y: int|
                0 <= x < y < t.drop_first().len() ==> t.drop_first()[x].0 != t.drop_first()[y].0);
        }
        lemma_tbl_lookup_at(t.drop_first(), i - 1);
    }
}

/// A token at no index is a token lookup misses.
pub proof fn lemma_tbl_lookup_none(t: Seq<(u16, i64)>, k: u16)
    requires
        forall|i: int| 0 <= i < t.len() ==> t[i].0 != k,
    ensures
        tbl_lookup(t, k) is None,
    decreases t.len(),
{
    if t.len() > 0 {
        lemma_tbl_lookup_none(t.drop_first(), k);
    }
}

/// Appending an entry under a fresh token adds exactly that association.
pub proof fn lemma_tbl_push(t: Seq<(u16, i64)>, k: u16, v: i64, q: u16)
    requires
        tbl_lookup(t, k) is None,
    ensures
        tbl_lookup(t.push((k, v)), q) == if q == k {
            Some(v)
        } else {
            tbl_lookup(t, q)
        },
    decreases t.len(),
{
    if t.len() == 0 {
        assert(t.push((k, v)).drop_first() =~= Seq::empty());
    } else {
        assert(t.push((k, v)).drop_first() =~= t.drop_first().push((k, v)));
        lemma_tbl_push(t.drop_first(), k, v, q);
    }
}

/// A token lookup misses keys no entry.
pub proof fn lemma_tbl_none_no_index(t: Seq<(u16, i64)>, k: u16)
    requires
        tbl_lookup(t, k) is None,
    ensures
        forall|i: int| 0 <= i < t.len() ==> t[i].0 != k,
    decreases t.len(),
{
    if t.len() > 0 {
        lemma_tbl_none_no_index(t.drop_first(), k);
        assert(forall|i: int|
            1 <= i < t.len() ==> t[i].0 == t.drop_first()[i - 1].0 && t.drop_first()[i - 1].0
                != k);
    }
}

/// Removing the entry at an index removes exactly its token's association,
/// when tokens are unique.
pub proof fn lemma_tbl_remove(t: Seq<(u16, i64)>, i: int, q: u16)
    requires
        tbl_unique(t),
        0 <= i < t.len(),
    ensures
        tbl_lookup(t.remove(i), q) == if q == t[i].0 {
            None
        } else {
            tbl_lookup(t, q)
        },
        tbl_unique(t.remove(i)),
    decreases t.len(),
{
    let r = t.remove(i);
    assert(tbl_unique(r)) by {
        assert(forall|x: int, y: int| 0 <= x < y < r.len() ==> r[x].0 != r[y].0) by {
            assert(forall|x: int|
                0 <= x < r.len() ==> r[x] == if x < i {
                    t[x]
                } else {
                    t[x + 1]
                });
        }
    }
    if i == 0 {
        assert(t.remove(0) =~= t.drop_first());
        if q == t[0].0 {
            assert(forall|x: int| 0 <= x < t.drop_first().len() ==> t.drop_first()[x].0 != q);
            lemma_tbl_lookup_none(t.drop_first(), q);
        }
    } else {
        assert(t.remove(i).drop_first() =~= t.drop_first().remove(i - 1));
        assert(tbl_unique(t.drop_first())) by {
            assert(forall|x: int, y: int|
                0 <= x < y < t.drop_first().len() ==> t.drop_first()[x].0 != t.drop_first()[y].0);
        }
        lemma_tbl_remove(t.drop_first(), i - 1, q);
    }
}

/// The correlation table after one maintenance sweep at a given time: the
/// entries no older than the eviction threshold, in order.
pub open spec fn tbl_sweep(t: Seq<(u16, i64)>, now: int) -> Seq<(u16, i64)>
    decreases t.len(),
{
    if t.len() == 0 {
        t
    } else if now - t[0].1 <= ECHO_TIMEOUT_MS {
        seq![t[0]] + tbl_sweep(t.drop_first(), now)
    } else {
        tbl_sweep(t.drop_first(), now)
    }
}

/// A sweep treats an appended entry independently of the rest.
pub proof fn lemma_tbl_sweep_push(t: Seq<(u16, i64)>, e: (u16, i64), now: int)
    ensures
        tbl_sweep(t.push(e), now) == if now - e.1 <= ECHO_TIMEOUT_MS {
            tbl_sweep(t, now).push(e)
        } else {
            tbl_sweep(t, now)
        },
    decreases t.len(),
{
    let s = t.push(e);
    if t.len() == 0 {
        assert(s[0] == e);
        assert(s.drop_first() =~= t);
        if now - e.1 <= ECHO_TIMEOUT_MS {
            assert(tbl_sweep(s, now) == seq![e] + tbl_sweep(t, now));
            assert(seq![e] + tbl_sweep(t, now) =~= tbl_sweep(t, now).push(e));
        }
    } else {
        assert(s[0] == t[0]);
        assert(s.drop_first() =~= t.drop_first().push(e));
        lemma_tbl_sweep_push(t.drop_first(), e, now);
        if now - t[0].1 <= ECHO_TIMEOUT_MS && now - e.1 <= ECHO_TIMEOUT_MS {
            assert(seq![t[0]] + tbl_sweep(t.drop_first(), now).push(e) =~= (seq![t[0]]
                + tbl_sweep(t.drop_first(), now)).push(e));
        }
    }
}

/// After a sweep, a token maps to its old issue time when that time is young
/// enough, and to nothing otherwise.
pub proof fn lemma_tbl_sweep_lookup(t: Seq<(u16, i64)>, now: int, q: u16)
    requires
        tbl_unique(t),
    ensures
        tbl_unique(tbl_sweep(t, now)),
        tbl_lookup(tbl_sweep(t, now), q) == match tbl_lookup(t, q) {
            Some(v) => if now - v <= ECHO_TIMEOUT_MS {
                Some(v)
            } else {
                None
            },
            None => None,
        },
    decreases t.len(),
{
    if t.len() > 0 {
        assert(tbl_unique(t.drop_first())) by {
            assert(forall|x: int, y: int|
                0 <= x < y < t.drop_first().len() ==> t.drop_first()[x].0 != t.drop_first()[y].0);
        }
        lemma_tbl_sweep_lookup(t.drop_first(), now, q);
        let rest = tbl_sweep(t.drop_first(), now);
        if now - t[0].1 > ECHO_TIMEOUT_MS && q == t[0].0 {
            // the head was evicted, and by uniqueness its token keys nothing else
            assert(forall|x: int| 0 <= x < t.drop_first().len() ==> t.drop_first()[x].0 != q);
            lemma_tbl_lookup_none(t.drop_first(), q);
        }
        if now - t[0].1 <= ECHO_TIMEOUT_MS {
            let s = seq![t[0]] + rest;
            assert(s[0] == t[0]);
            assert(s.drop_first() =~= rest);
            // the kept head's token keys nothing in the swept tail
            assert(forall|x: int| 0 <= x < t.drop_first().len() ==> t.drop_first()[x].0 != t[0].0);
            lemma_tbl_lookup_none(t.drop_first(), t[0].0);
            lemma_tbl_sweep_lookup(t.drop_first(), now, t[0].0);
            lemma_tbl_none_no_index(rest, t[0].0);
            assert(tbl_unique(s)) by {
                assert(forall|x: int| 1 <= x < s.len() ==> s[x] == rest[x - 1]);
            }
        }
    }
}

/// Milliseconds after which a pending echo request is evicted as timed out.
pub const ECHO_TIMEOUT_MS: i64 = 5000;

/// Replaces or appends the entry under a token, as a map insertion does.
fn tbl_insert(t: &mut Vec<(u16, i64)>, k: u16, v: i64)
    requires
        tbl_unique(old(t)@),
    ensures
        tbl_unique(final(t)@),
        forall|q: u16|
            tbl_lookup(final(t)@, q) == if q == k {
                Some(v)
            } else {
                tbl_lookup(old(t)@, q)
            },
        final(t)@.len() == old(t)@.len() + if tbl_lookup(old(t)@, k) is Some {
            0int
        } else {
            1int
        },
{
    let n = t.len();
    let mut i: usize = 0;
    while i < n
        invariant
            i <= n == t@.len(),
            t@ == old(t)@,
            tbl_unique(old(t)@),
            forall|j: int| 0 <= j < i ==> t@[j].0 != k,
        decreases n - i,
    {
        if t[i].0 == k {
            proof {
                lemma_tbl_lookup_at(t@, i as int);
            }
            let _ = t.remove(i);
            proof {
                assert forall|q: u16|
                    tbl_lookup(t@, q) == if q == k {
                        None::<i64>
                    } else {
                        tbl_lookup(old(t)@, q)
                    } by {
                    lemma_tbl_remove(old(t)@, i as int, q);
                }
                lemma_tbl_remove(old(t)@, i as int, k);
                lemma_tbl_none_no_index(t@, k);
            }
            let ghost removed = t@;
            t.push((k, v));
            proof {
                assert forall|q: u16|
                    tbl_lookup(t@, q) == if q == k {
                        Some(v)
                    } else {
                        tbl_lookup(old(t)@, q)
                    } by {
                    lemma_tbl_push(removed, k, v, q);
                }
                assert(tbl_unique(t@)) by {
                    assert(forall|x: int| 0 <= x < removed.len() ==> t@[x] == removed[x]);
                    assert(t@[removed.len() as int] == (k, v));
                }
            }
            return ;
        }
        i = i + 1;
    }
    proof {
        lemma_tbl_lookup_none(t@, k);
    }
    let ghost before = t@;
    t.push((k, v));
    proof {
        assert forall|q: u16|
            tbl_lookup(t@, q) == if q == k {
                Some(v)
            } else {
                tbl_lookup(old(t)@, q)
            } by {
            lemma_tbl_push(before, k, v, q);
        }
        lemma_tbl_none_no_index(before, k);
        assert(tbl_unique(t@)) by {
            assert(forall|x: int| 0 <= x < before.len() ==> t@[x] == before[x]);
            assert(t@[before.len() as int] == (k, v));
        }
    }
}

/// First-match lookup in the known-hosts directory: the address registered
/// under a host name.
pub open spec fn spec_host_lookup(t: Seq<(String, Nsap)>, k: Seq<char>) -> Option<Nsap>
    decreases t.len(),
{
    if t.len() == 0 {
        None
    } else if t[0].0@ == k {
        Some(t[0].1)
    } else {
        spec_host_lookup(t.drop_first(), k)
    }
}

/// Every host name keys at most one entry of the directory.
pub open spec fn hosts_unique(t: Seq<(String, Nsap)>) -> bool {
    forall|i: int, j: int| 0 <= i < j < t.len() ==> t[i].0@ != t[j].0@
}

/// The first index carrying a host name is what lookup returns.
pub proof fn lemma_host_lookup_first(t: Seq<(String, Nsap)>, i: int)
    requires
        0 <= i < t.len(),
        forall|j: int| 0 <= j < i ==> t[j].0@ != t[i].0@,
    ensures
        spec_host_lookup(t, t[i].0@) == Some(t[i].1),
    decreases t.len(),
{
    if i > 0 {
        assert(forall|j: int|
            0 <= j < i - 1 ==> t.drop_first()[j].0@ == t[j + 1].0@ && t[j + 1].0@ != t[i].0@);
        assert(t.drop_first()[i - 1] == t[i]);
        lemma_host_lookup_first(t.drop_first(), i - 1);
    }
}

/// A host name at no index is a name lookup misses.
pub proof fn lemma_host_lookup_none(t: Seq<(String, Nsap)>, k: Seq<char>)
    requires
        forall|i: int| 0 <= i < t.len() ==> t[i].0@ != k,
    ensures
        spec_host_lookup(t, k) is None,
    decreases t.len(),
{
    if t.len() > 0 {
        lemma_host_lookup_none(t.drop_first(), k);
    }
}

/// A host name lookup misses keys no entry.
pub proof fn lemma_host_none_no_index(t: Seq<(String, Nsap)>, k: Seq<char>)
    requires
        spec_host_lookup(t, k) is None,
    ensures
        forall|i: int| 0 <= i < t.len() ==> t[i].0@ != k,
    decreases t.len(),
{
    if t.len() > 0 {
        lemma_host_none_no_index(t.drop_first(), k);
        assert(forall|i: int|
            1 <= i < t.len() ==> t[i].0@ == t.drop_first()[i - 1].0@ && t.drop_first()[i
                - 1].0@ != k);
    }
}

/// Appending an entry under a fresh host name adds exactly that association.
pub proof fn lemma_host_push(t: Seq<(String, Nsap)>, e: (String, Nsap), q: Seq<char>)
    requires
        spec_host_lookup(t, e.0@) is None,
    ensures
        spec_host_lookup(t.push(e), q) == if q == e.0@ {
            Some(e.1)
        } else {
            spec_host_lookup(t, q)
        },
    decreases t.len(),
{
    reveal_with_fuel(spec_host_lookup, 2);
    if t.len() == 0 {
        assert(t.push(e).drop_first() =~= Seq::<(String, Nsap)>::empty());
        assert(t.push(e)[0] == e);
        assert(spec_host_lookup(t.push(e).drop_first(), q) is None);
    } else {
        assert(t.push(e).drop_first() =~= t.drop_first().push(e));
        assert(t.push(e)[0] == t[0]);
        lemma_host_push(t.drop_first(), e, q);
    }
}

/// Removing the entry at an index removes exactly its name's association,
/// when names are unique.
pub proof fn lemma_host_remove(t: Seq<(String, Nsap)>, i: int, q: Seq<char>)
    requires
        hosts_unique(t),
        0 <= i < t.len(),
    ensures
        spec_host_lookup(t.remove(i), q) == if q == t[i].0@ {
            None
        } else {
            spec_host_lookup(t, q)
        },
        hosts_unique(t.remove(i)),
    decreases t.len(),
{
    let r = t.remove(i);
    assert(hosts_unique(r)) by {
        assert(forall|x: int, y: int| 0 <= x < y < r.len() ==> r[x].0@ != r[y].0@) by {
            assert(forall|x: int|
                0 <= x < r.len() ==> r[x] == if x < i {
                    t[x]
                } else {
                    t[x + 1]
                });
        }
    }
    if i == 0 {
        assert(t.remove(0) =~= t.drop_first());
        if q == t[0].0@ {
            assert(forall|x: int| 0 <= x < t.drop_first().len() ==> t.drop_first()[x].0@ != q);
            lemma_host_lookup_none(t.drop_first(), q);
        }
    } else {
        assert(t.remove(i).drop_first() =~= t.drop_first().remove(i - 1));
        assert(hosts_unique(t.drop_first())) by {
            assert(forall|x: int, y: int|
                0 <= x < y < t.drop_first().len() ==> t.drop_first()[x].0@ != t.drop_first()[y].0@);
        }
        lemma_host_remove(t.drop_first(), i - 1, q);
    }
}

/// Replaces or appends the entry under a host name, as a map insertion does.
fn hosts_insert(t: &mut Vec<(String, Nsap)>, key: String, val: Nsap)
    requires
        hosts_unique(old(t)@),
    ensures
        hosts_unique(final(t)@),
        ({
            let looked = spec_host_lookup(final(t)@, key@);
            looked == Some(val)
        }),
        forall|q: Seq<char>|
            q != key@ ==> spec_host_lookup(final(t)@, q) == spec_host_lookup(old(t)@, q),
{
    let n = t.len();
    let mut i: usize = 0;
    while i < n
        invariant
            i <= n == t@.len(),
            t@ == old(t)@,
            hosts_unique(old(t)@),
            forall|j: int| 0 <= j < i ==> t@[j].0@ != key@,
        decreases n - i,
    {
        if t[i].0 == key {
            let _ = t.remove(i);
            proof {
                assert forall|q: Seq<char>|
                    spec_host_lookup(t@, q) == if q == key@ {
                        None::<Nsap>
                    } else {
                        spec_host_lookup(old(t)@, q)
                    } by {
                    lemma_host_remove(old(t)@, i as int, q);
                }
                lemma_host_remove(old(t)@, i as int, key@);
                lemma_host_none_no_index(t@, key@);
            }
            let ghost removed = t@;
            t.push((key, val));
            proof {
                assert forall|q: Seq<char>|
                    spec_host_lookup(t@, q) == if q == t@[removed.len() as int].0@ {
                        Some(val)
                    } else {
                        spec_host_lookup(removed, q)
                    } by {
                    lemma_host_push(removed, t@[removed.len() as int], q);
                }
                assert(hosts_unique(t@)) by {
                    assert(forall|x: int| 0 <= x < removed.len() ==> t@[x] == removed[x]);
                }
            }
            return ;
        }
        i = i + 1;
    }
    proof {
        lemma_host_lookup_none(t@, key@);
    }
    let ghost before = t@;
    t.push((key, val));
    proof {
        assert forall|q: Seq<char>|
            spec_host_lookup(t@, q) == if q == t@[before.len() as int].0@ {
                Some(val)
            } else {
                spec_host_lookup(before, q)
            } by {
            lemma_host_push(before, t@[before.len() as int], q);
        }
        lemma_host_none_no_index(before, key@);
        assert(hosts_unique(t@)) by {
            assert(forall|x: int| 0 <= x < before.len() ==> t@[x] == before[x]);
        }
    }
}

/// The two bytes of a correlation token as they travel in the data part of
/// the inner Echo Response PDU: low byte first.
pub open spec fn spec_token_bytes(t: u16) -> Seq<u8> {
    seq![spec_u16_lo(t), spec_u16_hi(t)]
}

/// The correlation token read back from the first two data bytes of a
/// received Echo Response PDU.
pub open spec fn spec_token_of(b0: u8, b1: u8) -> u16 {
    spec_u16_of(b1, b0)
}

/// Round-trip time reported for a correlated echo response: the difference
/// of the two clock readings, clamped below at zero — never negative.
pub open spec fn spec_rtt(now: int, sent: int) -> i64 {
    if now - sent < 0 {
        0i64
    } else if now - sent > i64::MAX {
        i64::MAX
    } else {
        (now - sent) as i64
    }
}

/// What delivering one received frame led to.
#[derive(Debug)]
pub enum DeliverOutcome {
    /// Payload handed upward: an inactive-subset or Data PDU.
    Delivered { data: Vec<u8> },
    /// A received Echo Request was answered: its inner PDU bytes were queued
    /// back towards the sender.
    EchoReplied,
    /// A received Echo Response matched a pending request, after this round
    /// trip time.
    EchoCorrelated { rtt_ms: i64 },
    /// An Echo Response matched no pending request; benign, informational.
    StrayResponse,
    /// The frame was dropped for the given reason; the engine stays alive.
    Dropped { reason: ClnpError },
}

/// The CLNP network-layer service: the addresses it answers to, the
/// known-hosts directory, its own network entity title, the echo correlation
/// table, and the two inter-layer channels. Thread spawning and the
/// park/unpark wakeup discipline live with the embedding program; every
/// decision the engine takes is a function of its state, the event, and a
/// clock reading passed in.
pub struct Service {
    /// Addresses this instance answers to.
    pub serviced_nsaps: Vec<Nsap>,
    /// Host name to address directory, populated at startup.
    pub known_hosts: Vec<(String, Nsap)>,
    /// This instance's own title.
    pub network_entity_title: String,
    /// Pending echo requests: correlation token to issue time, milliseconds.
    pub echo_request_correlation_table: Vec<(u16, i64)>,
    /// Outbound queue towards the subnetwork layer.
    pub sn_service_to: SnChannel,
    /// Inbound queue from the subnetwork layer.
    pub sn_service_from: NChannel,
}

impl Service {
    /// Internal consistency: tokens and host names each key at most one
    /// entry.
    pub open spec fn wf(self) -> bool {
        &&& tbl_unique(self.echo_request_correlation_table@)
        &&& hosts_unique(self.known_hosts@)
    }

    /// A fresh service around the two inter-layer channels, with no serviced
    /// addresses, no known hosts and no pending echo requests.
    pub fn new(network_entity_title: String, sn_service_to: SnChannel, sn_service_from: NChannel)
        -> (r: Service)
        ensures
            r.wf(),
            r.serviced_nsaps@ == Seq::<Nsap>::empty(),
            r.known_hosts@ == Seq::<(String, Nsap)>::empty(),
            r.echo_request_correlation_table@ == Seq::<(u16, i64)>::empty(),
            r.network_entity_title == network_entity_title,
            r.sn_service_to == sn_service_to,
            r.sn_service_from == sn_service_from,
    {
        Service {
            serviced_nsaps: Vec::new(),
            known_hosts: Vec::new(),
            network_entity_title,
            echo_request_correlation_table: Vec::new(),
            sn_service_to,
            sn_service_from,
        }
    }

    /// Registers an address this instance answers to. No uniqueness check is
    /// in scope.
    pub fn add_serviced_nsap(&mut self, authority: u16, area: u16, sub_area: u16, remainder: [u8;
        6])
        requires
            old(self).wf(),
        ensures
            final(self).wf(),
            final(self).serviced_nsaps@ == old(self).serviced_nsaps@.push(
                Nsap { authority, area, sub_area, local_address: remainder },
            ),
            final(self).known_hosts == old(self).known_hosts,
            final(self).network_entity_title == old(self).network_entity_title,
            final(self).echo_request_correlation_table
                == old(self).echo_request_correlation_table,
            final(self).sn_service_to == old(self).sn_service_to,
            final(self).sn_service_from == old(self).sn_service_from,
    {
        self.serviced_nsaps.push(Nsap { authority, area, sub_area, local_address: remainder });
    }

    /// Registers a serviced address under the local-network authority.
    pub fn add_serviced_subnet_nsap(&mut self, net: u16, sub_net: u16, macaddr: [u8; 6])
        requires
            old(self).wf(),
        ensures
            final(self).wf(),
            final(self).serviced_nsaps@ == old(self).serviced_nsaps@.push(
                Nsap { authority: 49, area: net, sub_area: sub_net, local_address: macaddr },
            ),
            final(self).known_hosts == old(self).known_hosts,
            final(self).network_entity_title == old(self).network_entity_title,
            final(self).echo_request_correlation_table
                == old(self).echo_request_correlation_table,
            final(self).sn_service_to == old(self).sn_service_to,
            final(self).sn_service_from == old(self).sn_service_from,
    {
        self.add_serviced_nsap(49, net, sub_net, macaddr);
    }

    /// Directory lookup of a system title; nothing when the host is unknown,
    /// which callers treat as a recoverable resolution failure.
    pub fn resolve_nsap(&self, system_title: &str) -> (r: Option<Nsap>)
        ensures
            r == spec_host_lookup(self.known_hosts@, system_title@),
    {
        let key = system_title.to_owned();
        let n = self.known_hosts.len();
        let mut i: usize = 0;
        while i < n
            invariant
                i <= n == self.known_hosts@.len(),
                key@ == system_title@,
                forall|j: int| 0 <= j < i ==> self.known_hosts@[j].0@ != system_title@,
            decreases n - i,
        {
            if self.known_hosts[i].0 == key {
                proof {
                    lemma_host_lookup_first(self.known_hosts@, i as int);
                }
                return Some(self.known_hosts[i].1);
            }
            i = i + 1;
        }
        proof {
            lemma_host_lookup_none(self.known_hosts@, system_title@);
        }
        None
    }

    /// Parses a textual physical address and registers it in the directory
    /// under the host name, replacing any earlier entry of that name.
    /// Malformed input is a configuration error, surfaced synchronously.
    pub fn add_known_host(&mut self, system_title: String, nsap: &str) -> (r: Result<
        (),
        ClnpError,
    >)
        requires
            old(self).wf(),
        ensures
            final(self).wf(),
            final(self).serviced_nsaps == old(self).serviced_nsaps,
            final(self).network_entity_title == old(self).network_entity_title,
            final(self).echo_request_correlation_table
                == old(self).echo_request_correlation_table,
            final(self).sn_service_to == old(self).sn_service_to,
            final(self).sn_service_from == old(self).sn_service_from,
            match r {
                Ok(_) => mac_of(nsap@) is Some && ({
                    let looked = spec_host_lookup(final(self).known_hosts@, system_title@);
                    &&& looked is Some
                    &&& looked->0.authority == 49
                    &&& looked->0.area == 1
                    &&& looked->0.sub_area == 1
                    &&& looked->0.local_address@ == mac_of(nsap@)->0
                    &&& forall|q: Seq<char>|
                        q != system_title@ ==> spec_host_lookup(final(self).known_hosts@, q)
                            == spec_host_lookup(old(self).known_hosts@, q)
                }),
                Err(e) => e == ClnpError::Configuration && mac_of(nsap@) is None
                    && final(self).known_hosts == old(self).known_hosts,
            },
    {
        let local_address = match parse_macaddr(nsap) {
            Ok(b) => b,
            Err(_) => {
                return Err(ClnpError::Configuration);
            },
        };
        let entry = Nsap { authority: 49, area: 1, sub_area: 1, local_address };
        hosts_insert(&mut self.known_hosts, system_title, entry);
        Ok(())
    }

    /// The first serviced address, if any is registered; there can be
    /// several.
    pub fn get_serviced_nsap(&self) -> (r: Option<Nsap>)
        ensures
            self.serviced_nsaps@.len() == 0 ==> r is None,
            self.serviced_nsaps@.len() > 0 ==> r == Some(self.serviced_nsaps@[0]),
    {
        if self.serviced_nsaps.len() == 0 {
            None
        } else {
            Some(self.serviced_nsaps[0])
        }
    }

    /// Composes the PDUs that carry one unit of userdata. Under the inactive
    /// subset this is a single inactive PDU holding the payload verbatim;
    /// full-protocol composition is not implemented.
    pub fn pdu_composition(
        &self,
        inactive: bool,
        ns_source_address: &Nsap,
        ns_destination_address: &Nsap,
        ns_quality_of_service: &Qos,
        ns_userdata: &[u8],
    ) -> (r: Result<Vec<Pdu>, ClnpError>)
        ensures
            match r {
                Ok(pdus) => inactive && pdus@.len() == 1 && pdus@[0]@ == (PduM::Inactive {
                    npid: NETWORK_LAYER_PROTOCOL_IDENTIFIER_CLNP_INACTIVE,
                    data: ns_userdata@,
                }),
                Err(e) => !inactive && e == ClnpError::NotImplemented,
            },
    {
        if inactive {
            let mut pdus: Vec<Pdu> = Vec::new();
            pdus.push(
                Pdu::Inactive {
                    fixed_mini: NFixedPartMiniForInactive {
                        network_layer_protocol_identifier:
                            NETWORK_LAYER_PROTOCOL_IDENTIFIER_CLNP_INACTIVE,
                    },
                    data: NDataPart {
                        data: copy_range(ns_userdata, 0, ns_userdata.len()),
                    },
                },
            );
            proof {
                assert(ns_userdata@.subrange(0, ns_userdata@.len() as int) =~= ns_userdata@);
            }
            Ok(pdus)
        } else {
            Err(ClnpError::NotImplemented)
        }
    }

    /// Hands out the oldest frame waiting on the outbound channel; the
    /// subnetwork layer transmits it.
    pub fn next_outbound(&mut self) -> (r: Option<SNUnitDataRequest>)
        ensures
            final(self).serviced_nsaps == old(self).serviced_nsaps,
            final(self).known_hosts == old(self).known_hosts,
            final(self).network_entity_title == old(self).network_entity_title,
            final(self).echo_request_correlation_table
                == old(self).echo_request_correlation_table,
            final(self).sn_service_from == old(self).sn_service_from,
            sn_capacity(&final(self).sn_service_to) == sn_capacity(&old(self).sn_service_to),
            sn_contents(&old(self).sn_service_to).len() > 0 ==> r is Some && r->0.model()
                == sn_contents(&old(self).sn_service_to)[0] && sn_contents(
                &final(self).sn_service_to,
            ) == sn_contents(&old(self).sn_service_to).drop_first(),
            sn_contents(&old(self).sn_service_to).len() == 0 ==> r is None && sn_contents(
                &final(self).sn_service_to,
            ) == sn_contents(&old(self).sn_service_to),
    {
        self.sn_service_to.pop()
    }

    /// Queues one received indication for the engine to process; the
    /// subnetwork layer calls this and then wakes the receive loop.
    pub fn enqueue_indication(&mut self, indication: NUnitDataIndication) -> (r: Result<
        (),
        ClnpError,
    >)
        ensures
            final(self).serviced_nsaps == old(self).serviced_nsaps,
            final(self).known_hosts == old(self).known_hosts,
            final(self).network_entity_title == old(self).network_entity_title,
            final(self).echo_request_correlation_table
                == old(self).echo_request_correlation_table,
            final(self).sn_service_to == old(self).sn_service_to,
            n_capacity(&final(self).sn_service_from) == n_capacity(&old(self).sn_service_from),
            n_contents(&old(self).sn_service_from).len() < n_capacity(
                &old(self).sn_service_from,
            ) ==> r is Ok && n_contents(&final(self).sn_service_from) == n_contents(
                &old(self).sn_service_from,
            ).push(indication.model()),
            n_contents(&old(self).sn_service_from).len() >= n_capacity(
                &old(self).sn_service_from,
            ) ==> r is Err && r->Err_0 == ClnpError::Congestion && n_contents(
                &final(self).sn_service_from,
            ) == n_contents(&old(self).sn_service_from),
    {
        self.sn_service_from.push(indication)
    }

    /// One pass of the maintenance sweep: evicts every pending echo request
    /// older than the eviction threshold and reports how many were evicted;
    /// younger entries survive untouched.
    pub fn sweep_correlation_table(&mut self, now_ms: i64) -> (evicted: usize)
        requires
            old(self).wf(),
        ensures
            final(self).wf(),
            final(self).serviced_nsaps == old(self).serviced_nsaps,
            final(self).known_hosts == old(self).known_hosts,
            final(self).network_entity_title == old(self).network_entity_title,
            final(self).sn_service_to == old(self).sn_service_to,
            final(self).sn_service_from == old(self).sn_service_from,
            final(self).echo_request_correlation_table@ == tbl_sweep(
                old(self).echo_request_correlation_table@,
                now_ms as int,
            ),
            evicted as int == old(self).echo_request_correlation_table@.len()
                - final(self).echo_request_correlation_table@.len(),
            forall|k: u16|
                tbl_lookup(final(self).echo_request_correlation_table@, k) == match tbl_lookup(
                    old(self).echo_request_correlation_table@,
                    k,
                ) {
                    Some(sent) => if now_ms - sent <= ECHO_TIMEOUT_MS {
                        Some(sent)
                    } else {
                        None
                    },
                    None => None,
                },
    {
        let ghost tbl0 = self.echo_request_correlation_table@;
        let n = self.echo_request_correlation_table.len();
        let mut kept: Vec<(u16, i64)> = Vec::new();
        let mut evicted: usize = 0;
        let mut i: usize = 0;
        while i < n
            invariant
                i <= n == self.echo_request_correlation_table@.len(),
                *self == *old(self),
                tbl0 == self.echo_request_correlation_table@,
                kept@ == tbl_sweep(tbl0.take(i as int), now_ms as int),
                kept@.len() + evicted == i,
            decreases n - i,
        {
            let e = self.echo_request_correlation_table[i];
            proof {
                assert(tbl0.take(i + 1) =~= tbl0.take(i as int).push(e));
                lemma_tbl_sweep_push(tbl0.take(i as int), e, now_ms as int);
            }
            if (now_ms as i128) - (e.1 as i128) <= (ECHO_TIMEOUT_MS as i128) {
                kept.push(e);
            } else {
                evicted = evicted + 1;
            }
            i = i + 1;
        }
        proof {
            assert(tbl0.take(n as int) =~= tbl0);
            assert forall|k: u16|
                tbl_lookup(tbl_sweep(tbl0, now_ms as int), k) == match tbl_lookup(tbl0, k) {
                    Some(sent) => if now_ms - sent <= ECHO_TIMEOUT_MS {
                        Some(sent)
                    } else {
                        None
                    },
                    None => None,
                } by {
                lemma_tbl_sweep_lookup(tbl0, now_ms as int, k);
            }
            lemma_tbl_sweep_lookup(tbl0, now_ms as int, 0);
        }
        self.echo_request_correlation_table = kept;
        evicted
    }

    /// Sends one unit of userdata towards a named destination: resolves the
    /// own and the destination address, composes an inactive-subset PDU,
    /// encodes it and queues it for the subnetwork layer. Fails with a
    /// configuration error when no serviced address exists or the
    /// destination cannot be resolved, and with congestion when the outbound
    /// queue is full; the caller decides between retry and drop.
    pub fn n_unitdata_request(
        &mut self,
        ns_destination_title: &str,
        ns_quality_of_service: &Qos,
        ns_userdata: &[u8],
    ) -> (r: Result<(), ClnpError>)
        requires
            old(self).wf(),
        ensures
            final(self).wf(),
            final(self).serviced_nsaps == old(self).serviced_nsaps,
            final(self).known_hosts == old(self).known_hosts,
            final(self).network_entity_title == old(self).network_entity_title,
            final(self).echo_request_correlation_table
                == old(self).echo_request_correlation_table,
            final(self).sn_service_from == old(self).sn_service_from,
            sn_capacity(&final(self).sn_service_to) == sn_capacity(&old(self).sn_service_to),
            ({
                let dst = spec_host_lookup(old(self).known_hosts@, ns_destination_title@);
                let ch0 = sn_contents(&old(self).sn_service_to);
                let ch1 = sn_contents(&final(self).sn_service_to);
                if old(self).serviced_nsaps@.len() == 0 {
                    r is Err && r->Err_0 == ClnpError::Configuration && ch1 == ch0
                } else if dst is None {
                    r is Err && r->Err_0 == ClnpError::Configuration && ch1 == ch0
                } else if ns_userdata@.len() > 1499 {
                    r is Err && r->Err_0 == ClnpError::BufferTooSmall && ch1 == ch0
                } else if ch0.len() < sn_capacity(&old(self).sn_service_to) {
                    r is Ok && ch1 == ch0.push(
                        (
                            old(self).serviced_nsaps@[0].local_address@,
                            dst->0.local_address@,
                            seq![0u8] + ns_userdata@,
                        ),
                    )
                } else {
                    r is Err && r->Err_0 == ClnpError::Congestion && ch1 == ch0
                }
            }),
    {
        let ns_source_address = match self.get_serviced_nsap() {
            Some(s) => s,
            None => {
                return Err(ClnpError::Configuration);
            },
        };
        let ns_destination_address = match self.resolve_nsap(ns_destination_title) {
            Some(d) => d,
            None => {
                return Err(ClnpError::Configuration);
            },
        };
        if ns_userdata.len() > 1499 {
            return Err(ClnpError::BufferTooSmall);
        }
        // this engine assumes one broadcast domain, so the inactive subset
        // always carries the traffic; the full-protocol transport is not
        // implemented
        if !can_use_inactive_subset(&ns_source_address, &ns_destination_address) {
            return Err(ClnpError::NotImplemented);
        }
        let pdus = match self.pdu_composition(
            true,
            &ns_source_address,
            &ns_destination_address,
            ns_quality_of_service,
            ns_userdata,
        ) {
            Ok(p) => p,
            Err(e) => {
                return Err(e);
            },
        };
        let mut buffer: Vec<u8> = vec![0u8; 1500];
        let bytes = match pdus[0].into_buf(true, &mut buffer) {
            Ok(n) => n,
            Err(e) => {
                return Err(e);
            },
        };
        let thevec = copy_range(buffer.as_slice(), 0, bytes);
        proof {
            assert(thevec@ =~= seq![0u8] + ns_userdata@);
        }
        match self.sn_service_to.push(
            SNUnitDataRequest {
                sn_source_address: ns_source_address.local_address,
                sn_destination_address: ns_destination_address.local_address,
                sn_quality_of_service: crate::dl::Qos {},
                sn_userdata: thevec,
            },
        ) {
            Ok(_) => Ok(()),
            Err(e) => Err(e),
        }
    }

    /// The echo request function at a fixed correlation token and clock
    /// reading: composes the nested Echo Request PDU pair towards the
    /// destination, queues the encoded frame, and records the token with its
    /// issue time in the correlation table — exactly one entry, replacing a
    /// colliding one. Under congestion nothing is queued and nothing is
    /// recorded.
    pub fn echo_request_at(
        &mut self,
        token: u16,
        now_ms: i64,
        source_address: &Nsap,
        destination_address: &Nsap,
        options: &Option<NOptionsPart>,
    ) -> (r: Result<(), ClnpError>)
        requires
            old(self).wf(),
        ensures
            final(self).wf(),
            final(self).serviced_nsaps == old(self).serviced_nsaps,
            final(self).known_hosts == old(self).known_hosts,
            final(self).network_entity_title == old(self).network_entity_title,
            final(self).sn_service_from == old(self).sn_service_from,
            sn_capacity(&final(self).sn_service_to) == sn_capacity(&old(self).sn_service_to),
            if sn_contents(&old(self).sn_service_to).len() < sn_capacity(
                &old(self).sn_service_to,
            ) {
                r is Ok && spec_echo_sent(
                    *old(self),
                    *final(self),
                    *source_address,
                    *destination_address,
                    token,
                    now_ms,
                )
            } else {
                r is Err && r->Err_0 == ClnpError::Congestion
                    && sn_contents(&final(self).sn_service_to)
                    == sn_contents(&old(self).sn_service_to)
                    && final(self).echo_request_correlation_table
                    == old(self).echo_request_correlation_table
            },
    {
        proof {
            assert(spec_nsap_bytes(*source_address).len() == 12);
            assert(spec_nsap_bytes(*destination_address).len() == 12);
        }
        let mut token_bytes: Vec<u8> = Vec::new();
        token_bytes.push(u16_lo(token));
        token_bytes.push(u16_hi(token));
        proof {
            assert(token_bytes@ =~= spec_token_bytes(token));
        }
        let mut buffer_scratch: Vec<u8> = vec![0u8; 64];
        let erq_pdu = match Pdu::new_echo_request(
            false,
            source_address,
            destination_address,
            options,
            token_bytes.as_slice(),
            &mut buffer_scratch,
        ) {
            Ok(p) => p,
            Err(e) => {
                return Err(e);
            },
        };
        proof {
            lemma_header_zero_len(
                spec_echo_inner(*source_address, *destination_address, spec_token_bytes(token)),
            );
            lemma_header_zero_len(erq_pdu@);
        }
        let mut buffer: Vec<u8> = vec![0u8; 1500];
        let bytes = match erq_pdu.into_buf(true, &mut buffer) {
            Ok(n) => n,
            Err(e) => {
                return Err(e);
            },
        };
        let thevec = copy_range(buffer.as_slice(), 0, bytes);
        proof {
            assert(thevec@ =~= spec_encode(
                spec_echo_outer(*source_address, *destination_address, spec_token_bytes(token)),
                true,
            ));
        }
        match self.sn_service_to.push(
            SNUnitDataRequest {
                sn_source_address: source_address.local_address,
                sn_destination_address: destination_address.local_address,
                sn_quality_of_service: crate::dl::Qos {},
                sn_userdata: thevec,
            },
        ) {
            Ok(_) => {},
            Err(e) => {
                return Err(e);
            },
        }
        // record the pending request only after the frame is queued
        tbl_insert(&mut self.echo_request_correlation_table, token, now_ms);
        proof {
            reveal(spec_echo_sent);
        }
        Ok(())
    }

    /// The echo request function: resolves the destination (a known host
    /// name, or an explicit address) and the source (the first serviced
    /// address, or the address registered under this instance's own title),
    /// draws a pseudo-random correlation token, reads the clock, and issues
    /// the request. The response, if any, arrives asynchronously through the
    /// receive path.
    pub fn echo_request(
        &mut self,
        destination_title: Option<String>,
        destination_nsap: Option<&Nsap>,
        source_address_index: Option<usize>,
        options: Option<NOptionsPart>,
        quality_of_service: &Qos,
    ) -> (r: Result<(), ClnpError>)
        requires
            old(self).wf(),
        ensures
            final(self).wf(),
            final(self).serviced_nsaps == old(self).serviced_nsaps,
            final(self).known_hosts == old(self).known_hosts,
            final(self).network_entity_title == old(self).network_entity_title,
            final(self).sn_service_from == old(self).sn_service_from,
            sn_capacity(&final(self).sn_service_to) == sn_capacity(&old(self).sn_service_to),
            r is Ok ==> exists|token: u16, now: i64|
                #[trigger] spec_echo_sent_resolved(
                    *old(self),
                    *final(self),
                    spec_echo_source(*old(self), source_address_index),
                    spec_echo_destination(
                        *old(self),
                        destination_title,
                        spec_deref_nsap(destination_nsap),
                    ),
                    token,
                    now,
                ),
            ({
                let dst = spec_echo_destination(
                    *old(self),
                    destination_title,
                    spec_deref_nsap(destination_nsap),
                );
                let src = spec_echo_source(*old(self), source_address_index);
                if dst is None || src is None {
                    r is Err && r->Err_0 == ClnpError::Configuration
                } else if sn_contents(&old(self).sn_service_to).len() < sn_capacity(
                    &old(self).sn_service_to,
                ) {
                    r is Ok
                } else {
                    r is Err && r->Err_0 == ClnpError::Congestion
                }
            }),
            r is Err ==> sn_contents(&final(self).sn_service_to) == sn_contents(
                &old(self).sn_service_to,
            ) && final(self).echo_request_correlation_table == old(
                self,
            ).echo_request_correlation_table,
    {
        proof {
            reveal(spec_deref_nsap);
            reveal(spec_echo_destination);
            reveal(spec_echo_source);
        }
        // destination: a known host name, or an explicit address
        let destination_address: Nsap = match &destination_title {
            Some(title) => match self.resolve_nsap(title.as_str()) {
                Some(d) => d,
                None => {
                    return Err(ClnpError::Configuration);
                },
            },
            None => match destination_nsap {
                Some(d) => *d,
                None => {
                    return Err(ClnpError::Configuration);
                },
            },
        };
        // source: the first serviced address, or the address registered
        // under this instance's own network entity title
        let source_address: Nsap = match source_address_index {
            Some(_) => match self.get_serviced_nsap() {
                Some(s) => s,
                None => {
                    return Err(ClnpError::Configuration);
                },
            },
            None => {
                let own_title = self.network_entity_title.clone();
                match self.resolve_nsap(own_title.as_str()) {
                    Some(s) => s,
                    None => {
                        return Err(ClnpError::Configuration);
                    },
                }
            },
        };
        let correlation_token = random_u16();
        let now = now_ms();
        match self.echo_request_at(
            correlation_token,
            now,
            &source_address,
            &destination_address,
            &options,
        ) {
            Ok(_) => {
                proof {
                    reveal(spec_deref_nsap);
                    reveal(spec_echo_destination);
                    reveal(spec_echo_source);
                    reveal(spec_echo_sent_resolved);
                    assert(spec_echo_destination(
                        *old(self),
                        destination_title,
                        spec_deref_nsap(destination_nsap),
                    ) == Some(destination_address));
                    assert(spec_echo_source(*old(self), source_address_index) == Some(
                        source_address,
                    ));
                    assert(spec_echo_sent(
                        *old(self),
                        *self,
                        source_address,
                        destination_address,
                        correlation_token,
                        now,
                    ));
                    assert(spec_echo_sent_resolved(
                        *old(self),
                        *self,
                        spec_echo_source(*old(self), source_address_index),
                        spec_echo_destination(
                            *old(self),
                            destination_title,
                            spec_deref_nsap(destination_nsap),
                        ),
                        correlation_token,
                        now,
                    ));
                }
                Ok(())
            },
            Err(e) => Err(e),
        }
    }

    /// Processes one received frame: decodes the PDU and dispatches on its
    /// kind. Data and inactive-subset payloads are handed upward; a received
    /// Echo Request is answered by sending its inner PDU bytes back to the
    /// sender; a received Echo Response is correlated against the pending
    /// table. Every malformed frame is dropped with a typed reason: one bad
    /// frame never takes the engine down.
    #[verifier::loop_isolation(false)]
    pub fn n_unitdata_indication(
        &mut self,
        now_ms: i64,
        ns_source_address: [u8; 6],
        ns_destination_address: [u8; 6],
        ns_quality_of_service: &Qos,
        ns_userdata: &[u8],
    ) -> (r: DeliverOutcome)
        requires
            old(self).wf(),
        ensures
            final(self).wf(),
            spec_deliver_post(
                *old(self),
                *final(self),
                r,
                now_ms as int,
                ns_source_address@,
                ns_destination_address@,
                ns_userdata@,
            ),
            final(self).sn_service_from == old(self).sn_service_from,
    {
        let pdu = match Pdu::from_buf(ns_userdata) {
            Ok(p) => p,
            Err(e) => {
                return DeliverOutcome::Dropped { reason: e };
            },
        };
        match pdu {
            Pdu::Inactive { fixed_mini, data } => {
                // inactive subset: the payload goes upward as it stands
                DeliverOutcome::Delivered { data: data.data }
            },
            Pdu::DataPDU { fixed, addr, seg, opts, discard, data } => {
                DeliverOutcome::Delivered {
                    data: match data {
                        Some(d) => d.data,
                        None => Vec::new(),
                    },
                }
            },
            Pdu::EchoRequestPDU { fixed, addr, seg, opts, discard, data } => {
                let data_inner = match data {
                    Some(d) => d,
                    None => {
                        return DeliverOutcome::Dropped {
                            reason: ClnpError::ProtocolViolation,
                        };
                    },
                };
                // the data part must itself decode to an Echo Response PDU
                match Pdu::from_buf(data_inner.data.as_slice()) {
                    Ok(Pdu::EchoResponsePDU { .. }) => {},
                    _ => {
                        return DeliverOutcome::Dropped {
                            reason: ClnpError::ProtocolViolation,
                        };
                    },
                }
                // relay the inner PDU bytes back to the original sender
                match self.sn_service_to.push(
                    SNUnitDataRequest {
                        sn_source_address: ns_destination_address,
                        sn_destination_address: ns_source_address,
                        sn_quality_of_service: crate::dl::Qos::from_ns_quality_of_service(
                            ns_quality_of_service,
                        ),
                        sn_userdata: data_inner.data,
                    },
                ) {
                    Ok(_) => DeliverOutcome::EchoReplied,
                    Err(e) => DeliverOutcome::Dropped { reason: e },
                }
            },
            Pdu::EchoResponsePDU { fixed, addr, seg, opts, discard, data } => {
                let payload = match data {
                    Some(d) => d.data,
                    None => Vec::new(),
                };
                if payload.len() < 2 {
                    return DeliverOutcome::Dropped { reason: ClnpError::ProtocolViolation };
                }
                let token = u16_of(payload[1], payload[0]);
                // correlate: look the token up and remove its entry
                let n = self.echo_request_correlation_table.len();
                let mut i: usize = 0;
                while i < n
                    invariant
                        i <= n == self.echo_request_correlation_table@.len(),
                        *self == *old(self),
                        old(self).wf(),
                        forall|j: int|
                            0 <= j < i ==> self.echo_request_correlation_table@[j].0 != token,
                    decreases n - i,
                {
                    if self.echo_request_correlation_table[i].0 == token {
                        let sent = self.echo_request_correlation_table[i].1;
                        proof {
                            lemma_tbl_lookup_at(
                                self.echo_request_correlation_table@,
                                i as int,
                            );
                        }
                        let _ = self.echo_request_correlation_table.remove(i);
                        proof {
                            assert forall|q: u16|
                                tbl_lookup(self.echo_request_correlation_table@, q) == (if q
                                    == token {
                                    None::<i64>
                                } else {
                                    tbl_lookup(old(self).echo_request_correlation_table@, q)
                                }) by {
                                lemma_tbl_remove(
                                    old(self).echo_request_correlation_table@,
                                    i as int,
                                    q,
                                );
                            }
                            lemma_tbl_remove(
                                old(self).echo_request_correlation_table@,
                                i as int,
                                token,
                            );
                        }
                        let diff: i128 = (now_ms as i128) - (sent as i128);
                        let rtt_ms: i64 = if diff < 0 {
                            0
                        } else if diff > (i64::MAX as i128) {
                            i64::MAX
                        } else {
                            diff as i64
                        };
                        return DeliverOutcome::EchoCorrelated { rtt_ms };
                    }
                    i = i + 1;
                }
                proof {
                    lemma_tbl_lookup_none(self.echo_request_correlation_table@, token);
                }
                DeliverOutcome::StrayResponse
            },
            Pdu::MulticastDataPDU { .. } => {
                DeliverOutcome::Dropped { reason: ClnpError::NotImplemented }
            },
            Pdu::ErrorReportPDU { .. } => {
                // the decoder never yields an Error Report PDU
                DeliverOutcome::Dropped { reason: ClnpError::NotImplemented }
            },
        }
    }

    /// One step of the receive loop: takes the oldest queued indication, if
    /// any, and processes it. The embedding program parks the loop thread
    /// when this returns nothing and wakes it on the next enqueue.
    pub fn poll_indication(&mut self, now_ms: i64) -> (r: Option<DeliverOutcome>)
        requires
            old(self).wf(),
        ensures
            final(self).wf(),
            n_capacity(&final(self).sn_service_from) == n_capacity(&old(self).sn_service_from),
            n_contents(&old(self).sn_service_from).len() == 0 ==> r is None
                && final(self).serviced_nsaps == old(self).serviced_nsaps
                && final(self).known_hosts == old(self).known_hosts
                && final(self).network_entity_title == old(self).network_entity_title
                && final(self).echo_request_correlation_table
                == old(self).echo_request_correlation_table
                && final(self).sn_service_to == old(self).sn_service_to
                && n_contents(&final(self).sn_service_from)
                == n_contents(&old(self).sn_service_from),
            n_contents(&old(self).sn_service_from).len() > 0 ==> r is Some && n_contents(
                &final(self).sn_service_from,
            ) == n_contents(&old(self).sn_service_from).drop_first() && spec_deliver_post(
                *old(self),
                *final(self),
                r->0,
                now_ms as int,
                n_contents(&old(self).sn_service_from)[0].0,
                n_contents(&old(self).sn_service_from)[0].1,
                n_contents(&old(self).sn_service_from)[0].2,
            ),
    {
        let indication = match self.sn_service_from.pop() {
            Some(ind) => ind,
            None => {
                return None;
            },
        };
        let outcome = self.n_unitdata_indication(
            now_ms,
            indication.ns_source_address,
            indication.ns_destination_address,
            &indication.ns_quality_of_service,
            indication.ns_userdata.as_slice(),
        );
        Some(outcome)
    }
}

/// Backpressure never corrupts the outbound queue. Every sending operation
/// of the service (`n_unitdata_request`, `echo_request`, the echo reply of
/// the receive path) ensures that the queue contents either stay exactly as
/// they were — in particular whenever congestion is reported — or gain one
/// frame appended after all older ones. In both cases every previously
/// enqueued frame keeps its place, so later pops return the old frames in
/// their original first-in first-out order.
pub proof fn lemma_send_preserves_queue_order(
    before: Seq<(Seq<u8>, Seq<u8>, Seq<u8>)>,
    after: Seq<(Seq<u8>, Seq<u8>, Seq<u8>)>,
)
    requires
        after == before || exists|f: (Seq<u8>, Seq<u8>, Seq<u8>)| after == before.push(f),
    ensures
        after.take(before.len() as int) == before,
        forall|i: int| 0 <= i < before.len() ==> after[i] == before[i],
{
    if after == before {
        assert(after.take(before.len() as int) =~= before);
    } else {
        let f = choose|f: (Seq<u8>, Seq<u8>, Seq<u8>)| after == before.push(f);
        assert(after == before.push(f));
        assert(after.take(before.len() as int) =~= before);
    }
}

/// What processing one received frame does to the engine: how the outcome,
/// the outbound queue and the correlation table follow from decoding the
/// frame bytes. The inbound queue is not constrained here; the caller states
/// separately whether the frame came off it.
pub open spec fn spec_deliver_post(
    s0: Service,
    s1: Service,
    r: DeliverOutcome,
    now: int,
    src_sn: Seq<u8>,
    dst_sn: Seq<u8>,
    userdata: Seq<u8>,
) -> bool {
    let tbl0 = s0.echo_request_correlation_table@;
    let tbl1 = s1.echo_request_correlation_table@;
    let ch0 = sn_contents(&s0.sn_service_to);
    let ch1 = sn_contents(&s1.sn_service_to);
    &&& s1.serviced_nsaps == s0.serviced_nsaps
    &&& s1.known_hosts == s0.known_hosts
    &&& s1.network_entity_title == s0.network_entity_title
    &&& sn_capacity(&s1.sn_service_to) == sn_capacity(&s0.sn_service_to)
    &&& match spec_decode(userdata) {
        Err(e) => r == (DeliverOutcome::Dropped { reason: e }) && tbl1 == tbl0 && ch1 == ch0,
        Ok(m) => match m {
            PduM::Inactive { .. } => (r matches DeliverOutcome::Delivered { data } && data@
                == m.payload()) && tbl1 == tbl0 && ch1 == ch0,
            PduM::Data { .. } => (r matches DeliverOutcome::Delivered { data } && data@
                == m.payload()) && tbl1 == tbl0 && ch1 == ch0,
            PduM::MulticastData { .. } => r == (DeliverOutcome::Dropped {
                reason: ClnpError::NotImplemented,
            }) && tbl1 == tbl0 && ch1 == ch0,
            PduM::ErrorReport { .. } => r == (DeliverOutcome::Dropped {
                reason: ClnpError::NotImplemented,
            }) && tbl1 == tbl0 && ch1 == ch0,
            PduM::EchoRequest { .. } => {
                let inner = spec_decode(m.payload());
                if !(inner is Ok && inner->Ok_0 is EchoResponse) {
                    r == (DeliverOutcome::Dropped { reason: ClnpError::ProtocolViolation })
                        && tbl1 == tbl0 && ch1 == ch0
                } else if ch0.len() < sn_capacity(&s0.sn_service_to) {
                    r == DeliverOutcome::EchoReplied && tbl1 == tbl0 && ch1 == ch0.push(
                        (dst_sn, src_sn, m.payload()),
                    )
                } else {
                    r == (DeliverOutcome::Dropped { reason: ClnpError::Congestion }) && tbl1
                        == tbl0 && ch1 == ch0
                }
            },
            PduM::EchoResponse { .. } => {
                let pay = m.payload();
                if pay.len() < 2 {
                    r == (DeliverOutcome::Dropped { reason: ClnpError::ProtocolViolation })
                        && tbl1 == tbl0 && ch1 == ch0
                } else {
                    let token = spec_token_of(pay[0], pay[1]);
                    match tbl_lookup(tbl0, token) {
                        Some(sent) => r == (DeliverOutcome::EchoCorrelated {
                            rtt_ms: spec_rtt(now, sent as int),
                        }) && ch1 == ch0 && tbl1.len() == tbl0.len() - 1 && (forall|q: u16|
                            tbl_lookup(tbl1, q) == if q == token {
                                None::<i64>
                            } else {
                                tbl_lookup(tbl0, q)
                            }),
                        None => r == DeliverOutcome::StrayResponse && tbl1 == tbl0 && ch1
                            == ch0,
                    }
                }
            },
        },
    }
}

/// An optional borrowed address as an optional value.
#[verifier::opaque]
pub open spec fn spec_deref_nsap(o: Option<&Nsap>) -> Option<Nsap> {
    match o {
        Some(n) => Some(*n),
        None => None,
    }
}

/// The destination address the echo request function works towards: the
/// directory entry of the given title when a title is given, else the
/// explicit address if one is.
#[verifier::opaque]
pub open spec fn spec_echo_destination(
    s: Service,
    destination_title: Option<String>,
    destination_nsap: Option<Nsap>,
) -> Option<Nsap> {
    match destination_title {
        Some(t) => spec_host_lookup(s.known_hosts@, t@),
        None => destination_nsap,
    }
}

/// The source address the echo request function speaks for: the first
/// serviced address when an index is given, else the directory entry of the
/// instance's own network entity title.
#[verifier::opaque]
pub open spec fn spec_echo_source(s: Service, source_address_index: Option<usize>) -> Option<
    Nsap,
> {
    match source_address_index {
        Some(_) => if s.serviced_nsaps@.len() > 0 {
            Some(s.serviced_nsaps@[0])
        } else {
            None
        },
        None => spec_host_lookup(s.known_hosts@, s.network_entity_title@),
    }
}

/// One echo request went out towards the resolved source and destination
/// addresses, when both resolved.
#[verifier::opaque]
pub open spec fn spec_echo_sent_resolved(
    s0: Service,
    s1: Service,
    source: Option<Nsap>,
    destination: Option<Nsap>,
    token: u16,
    now: i64,
) -> bool {
    source is Some && destination is Some && spec_echo_sent(
        s0,
        s1,
        source->0,
        destination->0,
        token,
        now,
    )
}

/// One echo request went out: the encoded nested PDU pair was queued towards
/// the destination, and the correlation table gained exactly the one entry
/// binding the token to its issue time (replacing a colliding token).
#[verifier::opaque]
pub open spec fn spec_echo_sent(
    s0: Service,
    s1: Service,
    source: Nsap,
    destination: Nsap,
    token: u16,
    now: i64,
) -> bool {
    &&& sn_contents(&s1.sn_service_to) == sn_contents(&s0.sn_service_to).push(
        (
            source.local_address@,
            destination.local_address@,
            spec_encode(spec_echo_outer(source, destination, spec_token_bytes(token)), true),
        ),
    )
    &&& forall|q: u16|
        tbl_lookup(s1.echo_request_correlation_table@, q) == if q == token {
            Some(now)
        } else {
            tbl_lookup(s0.echo_request_correlation_table@, q)
        }
    &&& s1.echo_request_correlation_table@.len() == s0.echo_request_correlation_table@.len()
        + if tbl_lookup(s0.echo_request_correlation_table@, token) is Some {
        0int
    } else {
        1int
    }
}

/// Outcome of the header format analysis on a received packet.
#[derive(Debug, Clone, Copy, PartialEq, Eq, Structural)]
pub enum HeaderFormatAnalysisResult {
    TooShortTooIdentify,
    FullProtocol,
    InactiveProtocol,
    UnknownProtocol,
}

/// Header format analysis: classifies a received packet by its first octet,
/// the network-layer protocol identifier.
pub fn header_format_analysis(packet: &[u8]) -> (r: HeaderFormatAnalysisResult)
    ensures
        packet@.len() == 0 ==> r == HeaderFormatAnalysisResult::TooShortTooIdentify,
        packet@.len() > 0 && packet@[0] == NETWORK_LAYER_PROTOCOL_IDENTIFIER_CLNP_FULL ==> r
            == HeaderFormatAnalysisResult::FullProtocol,
        packet@.len() > 0 && packet@[0] == NETWORK_LAYER_PROTOCOL_IDENTIFIER_CLNP_INACTIVE ==> r
            == HeaderFormatAnalysisResult::InactiveProtocol,
        packet@.len() > 0 && packet@[0] != NETWORK_LAYER_PROTOCOL_IDENTIFIER_CLNP_FULL
            && packet@[0] != NETWORK_LAYER_PROTOCOL_IDENTIFIER_CLNP_INACTIVE ==> r
            == HeaderFormatAnalysisResult::UnknownProtocol,
{
    if packet.len() < 1 {
        return HeaderFormatAnalysisResult::TooShortTooIdentify;
    }
    if packet[0] == NETWORK_LAYER_PROTOCOL_IDENTIFIER_CLNP_FULL {
        HeaderFormatAnalysisResult::FullProtocol
    } else if packet[0] == NETWORK_LAYER_PROTOCOL_IDENTIFIER_CLNP_INACTIVE {
        HeaderFormatAnalysisResult::InactiveProtocol
    } else {
        HeaderFormatAnalysisResult::UnknownProtocol
    }
}

} // verus!
