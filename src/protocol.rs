//! The printer's command set and its wire framing.
use vstd::prelude::*;

verus! {

/// Width of the print head, in pixels.
pub const PIXELS_PER_LINE: usize = 384;

/// Size of one packed row: one bit per pixel.
pub const LINE_BYTES: usize = 48;

/// Name for the CRC-8/SMBUS checksum (polynomial 0x07, no reflection,
/// zero initial value and zero final xor) of a byte sequence.
pub uninterp spec fn crc8_smbus_of(data: Seq<u8>) -> u8;

/// Relies on `crc::Crc::<u8>::checksum` with the `crc::CRC_8_SMBUS`
/// algorithm: the checksum depends on the bytes alone.
#[verifier::external_body]
fn crc8_smbus(data: &[u8]) -> (r: u8)
    ensures
        r == crc8_smbus_of(data@),
{
    crc::Crc::<u8>::new(&crc::CRC_8_SMBUS).checksum(data)
}

/// One command of the printer protocol.
#[derive(Clone, Copy, Debug, PartialEq, Eq)]
pub enum Command {
    Feed(FeedDirection, u8),
    /// A row: compressed or not, the number of meaningful bytes, and the bytes.
    Print(bool, usize, [u8; LINE_BYTES]),
    GetDeviceStatus,
    SetQuality(Quality),
    MagicLattice(LatticeType),
    GetDeviceInfo,
    /// Vendor opcode whose meaning is not known.
    UpdateDevice,
    /// Vendor opcode whose meaning is not known.
    SetWifi,
    FlowControl(Flow),
    SetEnergy(u16),
    /// Vendor opcode whose meaning is not known.
    DeviceId(u8),
    SetSpeed(u8),
    SetDrawingMode(DrawingMode),
}

#[derive(Clone, Copy, Debug, PartialEq, Eq, Structural)]
pub enum Flow {
    Start,
    Stop,
}

#[derive(Clone, Copy, Debug, PartialEq, Eq, Structural)]
pub enum LatticeType {
    Start,
    End,
}

#[derive(Clone, Copy, Debug, PartialEq, Eq, Structural)]
pub enum FeedDirection {
    Forward,
    Reverse,
}

#[derive(Clone, Copy, Debug, PartialEq, Eq, Structural)]
pub enum DrawingMode {
    Image,
    Text,
}

#[derive(Clone, Copy, Debug, PartialEq, Eq, Structural)]
pub enum Quality {
    Quality1,
    Quality2,
    Quality3,
    Quality4,
    Quality5,
    SpeedThin,
    SpeedModeration,
    SpeedThick,
}

/// The byte that stands for a flow-control state on the wire.
pub open spec fn flow_byte(f: Flow) -> u8 {
    match f {
        Flow::Start => 0x00,
        Flow::Stop => 0x10,
    }
}

/// The byte that stands for a drawing mode on the wire.
pub open spec fn mode_byte(m: DrawingMode) -> u8 {
    match m {
        DrawingMode::Image => 0x00,
        DrawingMode::Text => 0x01,
    }
}

/// The byte that stands for a quality level on the wire.
pub open spec fn quality_byte(q: Quality) -> u8 {
    match q {
        Quality::Quality1 => 0x31,
        Quality::Quality2 => 0x32,
        Quality::Quality3 => 0x33,
        Quality::Quality4 => 0x34,
        Quality::Quality5 => 0x35,
        Quality::SpeedThin => 0x22,
        Quality::SpeedModeration => 0x23,
        Quality::SpeedThick => 0x25,
    }
}

impl Flow {
    pub fn byte(&self) -> (r: u8)
        ensures
            r == flow_byte(*self),
    {
        match self {
            Flow::Start => 0x00,
            Flow::Stop => 0x10,
        }
    }
}

impl DrawingMode {
    pub fn byte(&self) -> (r: u8)
        ensures
            r == mode_byte(*self),
    {
        match self {
            DrawingMode::Image => 0x00,
            DrawingMode::Text => 0x01,
        }
    }
}

impl Quality {
    pub fn byte(&self) -> (r: u8)
        ensures
            r == quality_byte(*self),
    {
        match self {
            Quality::Quality1 => 0x31,
            Quality::Quality2 => 0x32,
            Quality::Quality3 => 0x33,
            Quality::Quality4 => 0x34,
            Quality::Quality5 => 0x35,
            Quality::SpeedThin => 0x22,
            Quality::SpeedModeration => 0x23,
            Quality::SpeedThick => 0x25,
        }
    }
}

/// Payload that opens a print job.
pub open spec fn lattice_start() -> Seq<u8> {
    seq![0xAA, 0x55, 0x17, 0x38, 0x44, 0x5F, 0x5F, 0x5F, 0x44, 0x38, 0x2C]
}

/// Payload that closes a print job.
pub open spec fn lattice_end() -> Seq<u8> {
    seq![0xAA, 0x55, 0x17, 0x00, 0x00, 0x00, 0x00, 0x00, 0x00, 0x00, 0x17]
}

/// The complete frame for a payload sent under an opcode.
pub open spec fn frame_of(opcode: u8, payload: Seq<u8>) -> Seq<u8> {
    seq![0x51u8, 0x78u8, opcode, 0x00u8, payload.len() as u8, 0x00u8] + payload + seq![
        crc8_smbus_of(payload),
        0xFFu8,
    ]
}

impl Command {
    /// A `Print` command names no more bytes than a row holds.
    pub open spec fn wf(&self) -> bool {
        match *self {
            Command::Print(_, len, _) => len <= LINE_BYTES,
            _ => true,
        }
    }

    pub open spec fn spec_opcode(&self) -> u8 {
        match *self {
            Command::Feed(FeedDirection::Reverse, _) => 0xA0,
            Command::Feed(FeedDirection::Forward, _) => 0xA1,
            Command::Print(false, _, _) => 0xA2,
            Command::GetDeviceStatus => 0xA3,
            Command::SetQuality(_) => 0xA4,
            Command::MagicLattice(_) => 0xA6,
            Command::GetDeviceInfo => 0xA8,
            Command::UpdateDevice => 0xA9,
            Command::SetWifi => 0xAA,
            Command::FlowControl(_) => 0xAE,
            Command::SetEnergy(_) => 0xAF,
            Command::DeviceId(_) => 0xBB,
            Command::SetSpeed(_) => 0xBD,
            Command::SetDrawingMode(_) => 0xBE,
            Command::Print(true, _, _) => 0xBF,
        }
    }

    pub open spec fn spec_payload(&self) -> Seq<u8> {
        match *self {
            Command::Feed(_, len) => seq![len, 0u8],
            Command::Print(_, len, data) => data@.take(len as int),
            Command::GetDeviceStatus => seq![0u8],
            Command::SetQuality(q) => seq![quality_byte(q)],
            Command::MagicLattice(LatticeType::Start) => lattice_start(),
            Command::MagicLattice(LatticeType::End) => lattice_end(),
            Command::GetDeviceInfo => seq![0u8],
            Command::UpdateDevice => seq![0u8],
            Command::SetWifi => Seq::empty(),
            Command::FlowControl(f) => seq![flow_byte(f)],
            Command::SetEnergy(e) => seq![(e % 256) as u8, (e / 256) as u8],
            Command::DeviceId(id) => seq![id],
            Command::SetSpeed(speed) => seq![speed],
            Command::SetDrawingMode(m) => seq![mode_byte(m)],
        }
    }

    /// The bytes that carry this command on the wire.
    pub open spec fn spec_frame(&self) -> Seq<u8> {
        frame_of(self.spec_opcode(), self.spec_payload())
    }

    proof fn lemma_payload_fits(&self)
        requires
            self.wf(),
        ensures
            self.spec_payload().len() <= LINE_BYTES,
    {
    }

    /// Every frame starts with the preamble `0x51 0x78`, then the opcode and
    /// the host marker; its fifth byte is the payload's length; the payload
    /// follows; it ends with the payload's checksum and `0xFF`.
    pub proof fn lemma_frame_shape(&self)
        requires
            self.wf(),
        ensures
            self.spec_frame().len() == self.spec_payload().len() + 8,
            self.spec_frame()[0] == 0x51,
            self.spec_frame()[1] == 0x78,
            self.spec_frame()[2] == self.spec_opcode(),
            self.spec_frame()[3] == 0x00,
            self.spec_frame()[4] as nat == self.spec_payload().len(),
            self.spec_frame()[5] == 0x00,
            self.spec_frame().subrange(6, self.spec_frame().len() - 2) == self.spec_payload(),
            self.spec_frame()[self.spec_frame().len() - 2] == crc8_smbus_of(self.spec_payload()),
            self.spec_frame()[self.spec_frame().len() - 1] == 0xFF,
    {
        let p = self.spec_payload();
        let f = self.spec_frame();
        self.lemma_payload_fits();
        assert(f.subrange(6, f.len() - 2) =~= p);
    }

    pub fn opcode(&self) -> (r: u8)
        ensures
            r == self.spec_opcode(),
    {
        match self {
            Command::Feed(FeedDirection::Reverse, _) => 0xA0,
            Command::Feed(FeedDirection::Forward, _) => 0xA1,
            Command::Print(false, _, _) => 0xA2,
            Command::GetDeviceStatus => 0xA3,
            Command::SetQuality(_) => 0xA4,
            Command::MagicLattice(_) => 0xA6,
            Command::GetDeviceInfo => 0xA8,
            Command::UpdateDevice => 0xA9,
            Command::SetWifi => 0xAA,
            Command::FlowControl(_) => 0xAE,
            Command::SetEnergy(_) => 0xAF,
            Command::DeviceId(_) => 0xBB,
            Command::SetSpeed(_) => 0xBD,
            Command::SetDrawingMode(_) => 0xBE,
            Command::Print(true, _, _) => 0xBF,
        }
    }

    pub fn payload(&self) -> (r: Vec<u8>)
        requires
            self.wf(),
        ensures
            r@ == self.spec_payload(),
    {
        match self {
            Command::Feed(_, len) => vec![*len, 0],
            Command::Print(_, len, data) => {
                let mut v: Vec<u8> = Vec::new();
                let mut i: usize = 0;
                while i < *len
                    invariant
                        i <= *len,
                        *len <= LINE_BYTES,
                        v@ == data@.take(i as int),
                    decreases *len - i,
                {
                    v.push(data[i]);
                    i = i + 1;
                }
                v
            },
            Command::GetDeviceStatus => vec![0],
            Command::SetQuality(quality) => vec![quality.byte()],
            Command::MagicLattice(LatticeType::Start) => {
                let r = vec![0xAA, 0x55, 0x17, 0x38, 0x44, 0x5F, 0x5F, 0x5F, 0x44, 0x38, 0x2C];
                assert(r@ =~= lattice_start());
                r
            },
            Command::MagicLattice(LatticeType::End) => {
                let r = vec![0xAA, 0x55, 0x17, 0x00, 0x00, 0x00, 0x00, 0x00, 0x00, 0x00, 0x17];
                assert(r@ =~= lattice_end());
                r
            },
            Command::GetDeviceInfo => vec![0],
            Command::UpdateDevice => vec![0],
            Command::SetWifi => Vec::new(),
            Command::FlowControl(flow) => vec![flow.byte()],
            Command::SetEnergy(energy) => {
                let e: u16 = *energy;
                assert((e & 0xFF) == e % 256) by (bit_vector);
                assert(((e >> 8) & 0xFF) == e / 256) by (bit_vector);
                vec![(e & 0xFF) as u8, ((e >> 8) & 0xFF) as u8]
            },
            Command::DeviceId(id) => vec![*id],
            Command::SetSpeed(speed) => vec![*speed],
            Command::SetDrawingMode(mode) => vec![mode.byte()],
        }
    }

    /// Frames the command: preamble, opcode, origin marker, payload length,
    /// payload, checksum of the payload, terminator.
    pub fn to_bytes(&self) -> (r: Vec<u8>)
        requires
            self.wf(),
        ensures
            r@ == self.spec_frame(),
    {
        let opcode = self.opcode();
        let mut payload = self.payload();
        let crc = crc8_smbus(payload.as_slice());
        let payload_len = payload.len();
        let mut bytes = vec![0x51, 0x78, opcode, 0x00, payload_len as u8, 0x00];
        bytes.append(&mut payload);
        bytes.push(crc);
        bytes.push(0xFF);
        assert(bytes@ =~= self.spec_frame());
        bytes
    }
}

} // verus!
