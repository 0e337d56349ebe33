//! A monochrome image as rows of ink values, and the print job built from it.
use crate::line::{encode_line, encode_line_compressed, encode_line_uncompressed, encodes_line, unpack};
use crate::protocol::{
    Command, DrawingMode, FeedDirection, LatticeType, Quality, LINE_BYTES, PIXELS_PER_LINE,
};
use vstd::prelude::*;

verus! {

/// Rows of ink values, each as wide as the print head; `true` means ink.
pub struct Image {
    rows: Vec<Vec<bool>>,
}

/// Rows that an image can hold: each one as wide as the print head, and no
/// more of them than a `u32` counts.
pub open spec fn valid_rows(rows: Seq<Seq<bool>>) -> bool {
    &&& rows.len() <= u32::MAX
    &&& forall|i: int| 0 <= i < rows.len() ==> (#[trigger] rows[i]).len() == PIXELS_PER_LINE
}

/// The command that prints row `ink`, as `encodes_line` describes it.
pub open spec fn prints_row(c: Command, ink: Seq<bool>, use_compression: bool) -> bool {
    match c {
        Command::Print(compressed, len, data) => len <= LINE_BYTES && encodes_line(
            ink,
            use_compression,
            compressed,
            len,
            data@,
        ),
        _ => false,
    }
}

impl View for Image {
    type V = Seq<Seq<bool>>;

    closed spec fn view(&self) -> Seq<Seq<bool>> {
        self.rows@.map_values(|r: Vec<bool>| r@)
    }
}

impl Image {
    pub open spec fn wf(&self) -> bool {
        valid_rows(self@)
    }

    /// Builds an image from its rows, or `None` where a row is not as wide
    /// as the print head or there are more rows than a `u32` counts.
    pub fn from_rows(rows: Vec<Vec<bool>>) -> (r: Option<Image>)
        ensures
            r is Some <==> valid_rows(rows@.map_values(|v: Vec<bool>| v@)),
            r matches Some(img) ==> img@ == rows@.map_values(|v: Vec<bool>| v@) && img.wf(),
    {
        let ghost rv = rows@.map_values(|v: Vec<bool>| v@);
        if rows.len() > u32::MAX as usize {
            return None;
        }
        let mut i: usize = 0;
        while i < rows.len()
            invariant
                i <= rows@.len(),
                rv == rows@.map_values(|v: Vec<bool>| v@),
                forall|k: int| 0 <= k < i ==> (#[trigger] rv[k]).len() == PIXELS_PER_LINE,
            decreases rows.len() - i,
        {
            if rows[i].len() != PIXELS_PER_LINE {
                assert(rv[i as int].len() != PIXELS_PER_LINE);
                return None;
            }
            i = i + 1;
        }
        let img = Image { rows };
        assert(img@ == rv);
        Some(img)
    }

    pub fn line_count(&self) -> (r: u32)
        requires
            self.wf(),
        ensures
            r == self@.len(),
    {
        self.rows.len() as u32
    }

    /// Row `y` as it is sent, or `None` past the last row.
    pub fn line(&self, y: u32, use_compression: bool) -> (r: Option<(bool, usize, [u8; LINE_BYTES])>)
        requires
            self.wf(),
        ensures
            r is None <==> y >= self@.len(),
            r matches Some(l) ==> l.1 <= LINE_BYTES && encodes_line(
                self@[y as int],
                use_compression,
                l.0,
                l.1,
                l.2@,
            ),
    {
        if y as usize >= self.rows.len() {
            return None;
        }
        let row = &self.rows[y as usize];
        assert(row@ == self@[y as int]);
        Some(encode_line(row.as_slice(), use_compression))
    }

    /// Row `y` compressed where that is not larger, or `None` past the last row.
    pub fn line_compressed(&self, y: u32) -> (r: Option<(bool, usize, [u8; LINE_BYTES])>)
        requires
            self.wf(),
        ensures
            r is None <==> y >= self@.len(),
            r matches Some(l) ==> l.1 <= LINE_BYTES && encodes_line(
                self@[y as int],
                true,
                l.0,
                l.1,
                l.2@,
            ),
    {
        if y as usize >= self.rows.len() {
            return None;
        }
        let row = &self.rows[y as usize];
        assert(row@ == self@[y as int]);
        Some(encode_line_compressed(row.as_slice()))
    }

    /// Row `y` as a packed bitmap, or `None` past the last row.
    pub fn line_uncompressed(&self, y: u32) -> (r: Option<(usize, [u8; LINE_BYTES])>)
        requires
            self.wf(),
        ensures
            r is None <==> y >= self@.len(),
            r matches Some(l) ==> l.0 == LINE_BYTES && unpack(l.1@) == self@[y as int],
    {
        if y as usize >= self.rows.len() {
            return None;
        }
        let row = &self.rows[y as usize];
        assert(row@ == self@[y as int]);
        Some(encode_line_uncompressed(row.as_slice()))
    }

    /// The commands of a print job: settings, the opening marker, one
    /// `Print` per row in order, the closing marker.
    pub fn print(&self, mode: DrawingMode, quality: Quality, energy: u16, use_compression: bool) -> (r:
        Vec<Command>)
        requires
            self.wf(),
        ensures
            r@.len() == self@.len() + 5,
            r@[0] == Command::SetQuality(quality),
            r@[1] == Command::SetEnergy(energy),
            r@[2] == Command::SetDrawingMode(mode),
            r@[3] == Command::MagicLattice(LatticeType::Start),
            forall|y: int| 0 <= y < self@.len() ==> prints_row(#[trigger] r@[4 + y], self@[y], use_compression),
            r@[self@.len() + 4int] == Command::MagicLattice(LatticeType::End),
            forall|i: int| 0 <= i < r@.len() ==> (#[trigger] r@[i]).wf(),
    {
        let mut commands: Vec<Command> = Vec::new();
        commands.push(Command::SetQuality(quality));
        commands.push(Command::SetEnergy(energy));
        commands.push(Command::SetDrawingMode(mode));
        commands.push(Command::MagicLattice(LatticeType::Start));
        let n = self.line_count();
        let mut y: u32 = 0;
        while y < n
            invariant
                self.wf(),
                n == self@.len(),
                y <= n,
                commands@.len() == y + 4,
                commands@[0] == Command::SetQuality(quality),
                commands@[1] == Command::SetEnergy(energy),
                commands@[2] == Command::SetDrawingMode(mode),
                commands@[3] == Command::MagicLattice(LatticeType::Start),
                forall|k: int| 0 <= k < y ==> prints_row(#[trigger] commands@[4 + k], self@[k], use_compression),
                forall|i: int| 0 <= i < commands@.len() ==> (#[trigger] commands@[i]).wf(),
            decreases n - y,
        {
            let line = self.line(y, use_compression);
            match line {
                Some((compressed, len, pixels)) => {
                    commands.push(Command::Print(compressed, len, pixels));
                    assert(prints_row(commands@[4 + y as int], self@[y as int], use_compression));
                },
                None => {},
            }
            y = y + 1;
        }
        commands.push(Command::MagicLattice(LatticeType::End));
        commands
    }
}

/// Paper fed before an image.
pub const LEAD_FEED: u8 = 10;

/// Paper fed after an image, to bring it out of the printer.
pub const TRAIL_FEED: u8 = 150;

/// A whole print job: a short feed, the image's commands as `Image::print`
/// gives them, and a long feed to bring the paper out.
pub fn print_job(
    image: &Image,
    mode: DrawingMode,
    quality: Quality,
    energy: u16,
    use_compression: bool,
) -> (r: Vec<Command>)
    requires
        image.wf(),
    ensures
        r@.len() == image@.len() + 7,
        r@[0] == Command::Feed(FeedDirection::Forward, LEAD_FEED),
        r@[1] == Command::SetQuality(quality),
        r@[2] == Command::SetEnergy(energy),
        r@[3] == Command::SetDrawingMode(mode),
        r@[4] == Command::MagicLattice(LatticeType::Start),
        forall|y: int|
            0 <= y < image@.len() ==> prints_row(#[trigger] r@[5 + y], image@[y], use_compression),
        r@[image@.len() + 5int] == Command::MagicLattice(LatticeType::End),
        r@[image@.len() + 6int] == Command::Feed(FeedDirection::Forward, TRAIL_FEED),
        forall|i: int| 0 <= i < r@.len() ==> (#[trigger] r@[i]).wf(),
{
    let mut job: Vec<Command> = Vec::new();
    job.push(Command::Feed(FeedDirection::Forward, LEAD_FEED));
    let mut body = image.print(mode, quality, energy, use_compression);
    let ghost b = body@;
    job.append(&mut body);
    job.push(Command::Feed(FeedDirection::Forward, TRAIL_FEED));
    assert forall|y: int| 0 <= y < image@.len() implies prints_row(
        #[trigger] job@[5 + y],
        image@[y],
        use_compression,
    ) by {
        assert(job@[5 + y] == b[4 + y]);
    }
    assert forall|i: int| 0 <= i < job@.len() implies (#[trigger] job@[i]).wf() by {
        if 1 <= i < job@.len() - 1 {
            assert(job@[i] == b[i - 1]);
        }
    }
    job
}

} // verus!
