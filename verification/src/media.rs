//! What the demuxer and the decoders tell of a picture.
use vstd::prelude::*;

verus! {

/// The pixel formats that the plugin tells apart. Planar 4:2:0 formats of more
/// than eight bits are those in the byte order of the machine.
#[derive(Debug, Clone, Copy, PartialEq, Eq, Structural)]
pub enum PixelFormat {
    Yuv420p,
    Yuv420p9,
    Yuv420p10,
    Yuv420p12,
    Yuv420p14,
    Yuv420p16,
    Yuv422p,
    Yuv422p9Le,
    Yuv422p9Be,
    Yuv422p10Le,
    Yuv422p10Be,
    Yuv422p12Le,
    Yuv422p12Be,
    Yuv422p14Le,
    Yuv422p14Be,
    Yuv422p16Le,
    Yuv422p16Be,
    Yuyv422,
    Uyvy422,
    Bgra,
    Gbrpf32Le,
    Other,
}

impl PixelFormat {
    /// The planar and packed formats with luma and subsampled chroma, all but
    /// the three that stand for something else.
    pub open spec fn yuv(self) -> bool {
        !(self is Bgra || self is Gbrpf32Le || self is Other)
    }

    /// Whether a picture in this format is handed on as packed 4:2:2, which is
    /// faster than a conversion to RGB.
    pub fn is_yuv(self) -> (res: bool)
        ensures
            res == self.yuv(),
    {
        match self {
            PixelFormat::Bgra => false,
            PixelFormat::Gbrpf32Le => false,
            PixelFormat::Other => false,
            _ => true,
        }
    }
}

/// The transfer characteristic of a picture.
#[derive(Debug, Clone, Copy, PartialEq, Eq, Structural)]
pub enum TransferCharacteristic {
    Smpte2084,
    AribStdB67,
    Other,
}

impl TransferCharacteristic {
    /// The two transfer functions of high dynamic range video.
    pub open spec fn hdr(self) -> bool {
        self is Smpte2084 || self is AribStdB67
    }

    /// Whether the picture is of high dynamic range.
    pub fn is_hdr_transfer(self) -> (res: bool)
        ensures
            res == self.hdr(),
    {
        match self {
            TransferCharacteristic::Smpte2084 => true,
            TransferCharacteristic::AribStdB67 => true,
            TransferCharacteristic::Other => false,
        }
    }
}

/// The matrix that a picture's colours were encoded with.
#[derive(Debug, Clone, Copy, PartialEq, Eq, Structural)]
pub enum ColorSpace {
    Bt709,
    Fcc,
    Smpte240m,
    Bt2020Ncl,
    Bt2020Cl,
    Bt470bg,
    Smpte170m,
    Unspecified,
    Other,
}

/// The range of a picture's samples.
#[derive(Debug, Clone, Copy, PartialEq, Eq, Structural)]
pub enum ColorRange {
    Jpeg,
    Mpeg,
    Unspecified,
}

} // verus!
