//! Decoded pixel buffers and the high-quality resampling step.
use vstd::prelude::*;

verus! {

/// The pixel layout of a decoded image.
#[derive(Clone, Copy, Debug, PartialEq, Eq, Structural)]
pub enum PixelFormat {
    /// One byte per pixel.
    Gray,
    /// Gray then alpha, one byte each.
    GrayAlpha,
    /// Red, green, blue, one byte each.
    Rgb,
    /// Red, green, blue, alpha, one byte each.
    Rgba,
    /// Any other layout (16-bit or floating-point channels, ...): it cannot be
    /// packed.
    Unsupported,
}

impl PixelFormat {
    pub open spec fn spec_channels(self) -> nat {
        match self {
            PixelFormat::Gray => 1,
            PixelFormat::GrayAlpha => 2,
            PixelFormat::Rgb => 3,
            PixelFormat::Rgba => 4,
            PixelFormat::Unsupported => 0,
        }
    }

    /// Bytes per pixel of a supported format; 0 for `Unsupported`.
    pub fn channels(self) -> (r: usize)
        ensures
            r as nat == self.spec_channels(),
    {
        match self {
            PixelFormat::Gray => 1,
            PixelFormat::GrayAlpha => 2,
            PixelFormat::Rgb => 3,
            PixelFormat::Rgba => 4,
            PixelFormat::Unsupported => 0,
        }
    }

    pub open spec fn is_supported(self) -> bool {
        self != PixelFormat::Unsupported
    }
}

/// A decoded raster image: row-major pixels, each `channels` bytes long.
#[derive(Clone, Debug)]
pub struct PixelImage {
    pub width: u32,
    pub height: u32,
    pub format: PixelFormat,
    pub data: Vec<u8>,
}

impl PixelImage {
    /// Positive dimensions, and for a supported format a buffer of exactly
    /// `width * height * channels` bytes.
    pub open spec fn wf(&self) -> bool {
        &&& self.width >= 1
        &&& self.height >= 1
        &&& self.format.is_supported() ==> self.data@.len() == (self.width as int) * (
        self.height as int) * self.format.spec_channels()
    }

    /// The side length that classification looks at: the shorter dimension.
    pub open spec fn spec_side(&self) -> u32 {
        if self.width <= self.height {
            self.width
        } else {
            self.height
        }
    }

    /// The shorter of width and height.
    pub fn side(&self) -> (r: u32)
        ensures
            r == self.spec_side(),
    {
        if self.width <= self.height {
            self.width
        } else {
            self.height
        }
    }
}

/// Relies on image::imageops::resize with FilterType::Lanczos3 on an 8-bit
/// gray buffer: it returns a `size x size` buffer.
#[verifier::external_body]
fn resample_plane(width: u32, height: u32, plane: Vec<u8>, size: u32) -> (r: Vec<u8>)
    requires
        width >= 1,
        height >= 1,
        plane@.len() == (width as int) * (height as int),
        1 <= size <= width,
        size <= height,
    ensures
        r@.len() == (size as int) * (size as int),
{
    let src = image::GrayImage::from_raw(width, height, plane).unwrap();
    image::imageops::resize(&src, size, size, image::imageops::FilterType::Lanczos3).into_raw()
}

/// Channel `c` of an interleaved buffer with `n` channels per pixel.
pub open spec fn channel_plane(data: Seq<u8>, n: nat, c: nat) -> Seq<u8> {
    Seq::new((data.len() / n) as nat, |p: int| data[p * n + c])
}

/// The pixels of `count` pixels whose channel `k` is `planes[k]`: byte `i`
/// is pixel `i / n`, channel `i % n`, for `n` planes.
pub open spec fn interleaved(planes: Seq<Vec<u8>>, count: nat) -> Seq<u8> {
    let n = planes.len();
    Seq::new(count * n, |i: int| planes[i % (n as int)]@[i / (n as int)])
}

/// Channel `c` of an interleaved buffer with `n` channels per pixel.
pub fn extract_channel(data: &Vec<u8>, n: usize, c: usize) -> (r: Vec<u8>)
    requires
        1 <= n <= 4,
        c < n,
        (data@.len() as int) % (n as int) == 0,
    ensures
        r@ == channel_plane(data@, n as nat, c as nat),
{
    let count = data.len() / n;
    let mut r: Vec<u8> = Vec::with_capacity(count);
    let mut p: usize = 0;
    while p < count
        invariant
            count == (data@.len() as int) / (n as int),
            (data@.len() as int) % (n as int) == 0,
            data@.len() <= usize::MAX,
            1 <= n <= 4,
            c < n,
            p <= count,
            r@ =~= channel_plane(data@, n as nat, c as nat).subrange(0, p as int),
        decreases count - p,
    {
        proof {
            assert(p * n + c < data@.len()) by (nonlinear_arith)
                requires
                    p < count,
                    c < n,
                    count == (data@.len() as int) / (n as int),
                    (data@.len() as int) % (n as int) == 0,
                    n >= 1,
            ;
        }
        let idx: usize = p * n + c;
        r.push(data[idx]);
        p = p + 1;
    }
    r
}

/// Interleaves one plane per channel into pixels: byte `p * n + k` of the
/// result is byte `p` of plane `k`.
pub fn interleave(planes: &Vec<Vec<u8>>, count: usize) -> (r: Vec<u8>)
    requires
        1 <= planes@.len() <= 4,
        forall|k: int| 0 <= k < planes@.len() ==> (#[trigger] planes@[k])@.len() == count,
        count * planes@.len() <= usize::MAX,
    ensures
        r@ == interleaved(planes@, count as nat),
{
    let n = planes.len();
    let ghost total = count * n;
    let mut data: Vec<u8> = Vec::new();
    let mut p: usize = 0;
    while p < count
        invariant
            n == planes@.len(),
            1 <= n <= 4,
            total == count * n,
            total <= usize::MAX,
            p <= count,
            forall|k: int| 0 <= k < n ==> (#[trigger] planes@[k])@.len() == count,
            data@.len() == p * n,
            forall|i: int|
                0 <= i < p * n ==> #[trigger] data@[i] == interleaved(planes@, count as nat)[i],
        decreases count - p,
    {
        let mut c: usize = 0;
        while c < n
            invariant
                n == planes@.len(),
                1 <= n <= 4,
                total == count * n,
                p < count,
                c <= n,
                forall|k: int| 0 <= k < n ==> (#[trigger] planes@[k])@.len() == count,
                data@.len() == p * n + c,
                forall|i: int|
                    0 <= i < p * n + c ==> #[trigger] data@[i] == interleaved(
                        planes@,
                        count as nat,
                    )[i],
            decreases n - c,
        {
            proof {
                let i = p * n + c;
                assert(i < count * n) by (nonlinear_arith)
                    requires
                        p < count,
                        c < n,
                        i == p * n + c,
                ;
                assert(i % (n as int) == c && i / (n as int) == p) by (nonlinear_arith)
                    requires
                        i == p * n + c,
                        0 <= c < n,
                        p >= 0,
                ;
            }
            data.push(planes[c][p]);
            c = c + 1;
        }
        proof {
            assert((p + 1) * n == p * n + n) by (nonlinear_arith);
        }
        p = p + 1;
    }
    proof {
        assert(p * n == count * n);
        assert(data@ =~= interleaved(planes@, count as nat));
    }
    data
}

/// Resamples `img` to `size x size` with the Lanczos3 filter, channel by
/// channel. The format is kept.
pub fn resample(img: &PixelImage, size: u32) -> (r: PixelImage)
    requires
        img.wf(),
        img.format.is_supported(),
        1 <= size <= img.spec_side(),
    ensures
        r.width == size,
        r.height == size,
        r.format == img.format,
        r.wf(),
{
    let n = img.format.channels();
    let len = img.data.len();
    let ghost w = img.width as int;
    let ghost h = img.height as int;
    let ghost s = size as int;
    proof {
        assert((len as int) % (n as int) == 0) by (nonlinear_arith)
            requires
                len == w * h * (n as int),
                n >= 1,
        ;
        assert(s * s * (n as int) <= len) by (nonlinear_arith)
            requires
                len == w * h * (n as int),
                1 <= s <= w,
                s <= h,
                n >= 1,
        ;
    }
    let mut planes: Vec<Vec<u8>> = Vec::new();
    let mut c: usize = 0;
    while c < n
        invariant
            n as nat == img.format.spec_channels(),
            1 <= n <= 4,
            c <= n,
            img.wf(),
            1 <= size <= img.spec_side(),
            len == img.data@.len(),
            (len as int) % (n as int) == 0,
            w == img.width,
            h == img.height,
            planes@.len() == c,
            forall|k: int|
                0 <= k < c ==> (#[trigger] planes@[k])@.len() == (size as int) * (size as int),
        decreases n - c,
    {
        let plane = extract_channel(&img.data, n, c);
        proof {
            assert((len as int) / (n as int) == w * h) by (nonlinear_arith)
                requires
                    len == w * h * (n as int),
                    n >= 1,
            ;
        }
        let out = resample_plane(img.width, img.height, plane, size);
        planes.push(out);
        c = c + 1;
    }
    let count = (size as usize) * (size as usize);
    let data = interleave(&planes, count);
    PixelImage { width: size, height: size, format: img.format, data }
}

} // verus!
