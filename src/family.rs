//! The icon family: at most one image per slot, first image offered wins, and
//! its serialization into an ICNS container.
use vstd::prelude::*;

use crate::pixels::{resample, PixelFormat, PixelImage};
use crate::slot::{classification_of, classify, Classification, Density, SlotType};

verus! {

#[verifier::external_type_specification]
#[verifier::external_body]
pub struct ExIoError(std::io::Error);

#[verifier::external_type_specification]
#[verifier::external_body]
pub struct ExIcnsFamily(icns::IconFamily);

#[verifier::external_type_specification]
#[verifier::external_body]
pub struct ExIcnsImage(icns::Image);

/// The bytes that icns writes for one icon of side `size` at `density`, from
/// `pixels` with `channels` bytes per pixel: its element, then its mask
/// element where the icon type has one. They depend on the arguments alone.
pub uninterp spec fn encoded_icon(size: u32, density: u32, channels: nat, pixels: Seq<u8>) -> Seq<u8>;

/// The records of the icons added to an icns family, in the order added.
pub uninterp spec fn icns_records(family: icns::IconFamily) -> Seq<Seq<u8>>;

/// Relies on icns::IconFamily::new: a fresh family holds no element.
pub assume_specification[ icns::IconFamily::new ]() -> (r: icns::IconFamily)
    ensures
        icns_records(r) == Seq::<Seq<u8>>::empty(),
;

/// Relies on icns::Image::from_data and icns::IconFamily::add_icon_with_type:
/// a buffer of `size * size` pixels in one of icns's formats is accepted, the
/// slot's icon type (icns::IconType::from_pixel_size_and_density) has exactly
/// those dimensions, and encoding it (with its mask, where the type has one)
/// into PNG or RLE data in memory does not fail. The icon's elements are
/// appended to the family; each starts with an 8-byte type-and-length header.
#[verifier::external_body]
fn add_icns_icon(family: &mut icns::IconFamily, icon: &Icon) -> (r: Result<(), std::io::Error>)
    requires
        icon.wf(),
    ensures
        r is Ok,
        icns_records(*final(family)) == icns_records(*old(family)).push(
            encoded_icon(icon.slot.size, icon.slot.density, icon.image.format.spec_channels(), icon.image.data@),
        ),
        icns_records(*final(family)).last().len() >= 8,
{
    let format = match icon.image.format {
        PixelFormat::Gray => icns::PixelFormat::Gray,
        PixelFormat::GrayAlpha => icns::PixelFormat::GrayAlpha,
        PixelFormat::Rgb => icns::PixelFormat::RGB,
        _ => icns::PixelFormat::RGBA,
    };
    let (size, density) = (icon.slot.size, icon.slot.density);
    let image = icns::Image::from_data(format, size, size, icon.image.data.clone())?;
    let icon_type = icns::IconType::from_pixel_size_and_density(size, size, density).unwrap();
    family.add_icon_with_type(&image, icon_type)
}

/// The magic bytes `icns` that open every container.
pub open spec fn icns_magic() -> Seq<u8> {
    seq![0x69u8, 0x63u8, 0x6eu8, 0x73u8]
}

/// A big-endian 32-bit integer from four bytes.
pub open spec fn be_u32(b: Seq<u8>) -> int {
    (b[0] as int) * 16777216 + (b[1] as int) * 65536 + (b[2] as int) * 256 + (b[3] as int)
}

/// The container header: the magic bytes, then the total byte length as a
/// big-endian 32-bit integer (modulo 2^32).
pub open spec fn has_container_header(bytes: Seq<u8>) -> bool {
    &&& bytes.len() >= 8
    &&& bytes.subrange(0, 4) == icns_magic()
    &&& be_u32(bytes.subrange(4, 8)) == bytes.len() % 4294967296
}

/// Relies on icns::IconFamily::write into a byte vector, which cannot fail: it
/// writes the magic `icns`, the family's total length as a big-endian u32 (the
/// sum of `u32` element lengths, each 8 plus its data), then each element.
#[verifier::external_body]
fn write_icns_family(family: &icns::IconFamily) -> (r: Result<Vec<u8>, std::io::Error>)
    ensures
        r.is_ok(),
        r matches Ok(bytes) ==> has_container_header(bytes@),
        r matches Ok(bytes) ==> bytes@.subrange(8, bytes@.len() as int) == icns_records(*family).flatten(),
{
    let mut out: Vec<u8> = Vec::new();
    family.write(&mut out).map(|_| out)
}

/// One populated slot and the square image that fills it.
#[derive(Debug)]
pub struct Icon {
    pub slot: SlotType,
    pub image: PixelImage,
}

impl Icon {
    /// A defined slot filled by a square image of the slot's size in a
    /// supported format.
    pub open spec fn wf(&self) -> bool {
        &&& self.slot.wf()
        &&& self.image.wf()
        &&& self.image.format.is_supported()
        &&& self.image.width == self.slot.size
        &&& self.image.height == self.slot.size
    }
}

/// What became of one image offered to the family.
#[derive(Clone, Copy, Debug, PartialEq, Eq, Structural)]
pub enum Insertion {
    /// The image (resized where needed) now fills this slot.
    Added(SlotType),
    /// An earlier image already fills this slot; this one was skipped.
    Duplicate(SlotType),
    /// No slot fits this image, even after rounding down; it was skipped.
    Unusable,
}

/// Errors that abort packing.
#[derive(Clone, Copy, Debug, PartialEq, Eq, Structural)]
pub enum PackError {
    /// An image would fill this slot but its pixel format cannot be encoded.
    UnsupportedPixelFormat(SlotType),
    /// No slot was filled: there is nothing to write.
    EmptyFamily,
    /// The container encoder failed; the contracts of `serialize` and `pack`
    /// show that it does not for a well-formed family.
    Encoding,
}

/// The slot that an image fills once rounded down, if any.
pub open spec fn target_of(img: PixelImage, density: Density) -> Option<SlotType> {
    match classification_of(img.spec_side(), density) {
        Classification::Direct(t) => Some(t),
        Classification::NeedsResize(s) => Some(SlotType { size: s, density: density.spec_factor() }),
        Classification::Unusable => None,
    }
}

/// The record that icns writes for one icon.
pub open spec fn record_of(icon: Icon) -> Seq<u8> {
    encoded_icon(icon.slot.size, icon.slot.density, icon.image.format.spec_channels(), icon.image.data@)
}

/// The records of `icons`, in order.
pub open spec fn records_of(icons: Seq<Icon>) -> Seq<Seq<u8>> {
    Seq::new(icons.len(), |k: int| record_of(icons[k]))
}

/// Records of at least 8 bytes each flatten to at least 8 bytes per record.
proof fn lemma_records_len(s: Seq<Seq<u8>>)
    requires
        forall|k: int| 0 <= k < s.len() ==> (#[trigger] s[k]).len() >= 8,
    ensures
        s.flatten().len() >= 8 * s.len(),
    decreases s.len(),
{
    if s.len() > 0 {
        assert forall|k: int| 0 <= k < s.drop_first().len() implies (#[trigger] s.drop_first()[k]).len()
            >= 8 by {
            assert(s.drop_first()[k] == s[k + 1]);
        }
        lemma_records_len(s.drop_first());
        assert(s[0] == s.first());
    }
}

/// Some icon of `icons` fills slot `t`.
pub open spec fn slot_taken(icons: Seq<Icon>, t: SlotType) -> bool {
    exists|i: int| 0 <= i < icons.len() && (#[trigger] icons[i]).slot == t
}

/// A set of populated icon slots, each filled at most once.
pub struct FamilyBuilder {
    icons: Vec<Icon>,
}

impl FamilyBuilder {
    pub closed spec fn view(&self) -> Seq<Icon> {
        self.icons@
    }

    /// Every icon fills a defined slot with a square image of the slot's size
    /// in a supported format, and no two icons share a slot.
    pub open spec fn wf(&self) -> bool {
        &&& forall|i: int|
            0 <= i < self@.len() ==> (#[trigger] self@[i]).wf()
        &&& forall|i: int, j: int|
            0 <= i < j < self@.len() ==> (#[trigger] self@[i]).slot != (#[trigger] self@[j]).slot
    }

    /// An empty family.
    pub fn new() -> (r: FamilyBuilder)
        ensures
            r@ == Seq::<Icon>::empty(),
            r.wf(),
    {
        FamilyBuilder { icons: Vec::new() }
    }

    /// The number of populated slots.
    pub fn len(&self) -> (r: usize)
        ensures
            r == self@.len(),
    {
        self.icons.len()
    }

    /// No slot is populated.
    pub fn is_empty(&self) -> (r: bool)
        ensures
            r == (self@.len() == 0),
    {
        self.icons.len() == 0
    }

    /// Whether some icon fills slot `t`.
    pub fn has_slot(&self, t: SlotType) -> (r: bool)
        ensures
            r == slot_taken(self@, t),
    {
        let mut i: usize = 0;
        while i < self.icons.len()
            invariant
                i <= self@.len(),
                forall|k: int| 0 <= k < i ==> (#[trigger] self@[k]).slot != t,
            decreases self@.len() - i,
        {
            if self.icons[i].slot == t {
                return true;
            }
            i = i + 1;
        }
        false
    }

    /// The image that fills slot `t`, if any.
    pub fn image_for(&self, t: SlotType) -> (r: Option<&PixelImage>)
        ensures
            r is None <==> !slot_taken(self@, t),
            r matches Some(img) ==> exists|i: int|
                0 <= i < self@.len() && (#[trigger] self@[i]).slot == t && *img == self@[i].image,
    {
        let mut i: usize = 0;
        while i < self.icons.len()
            invariant
                i <= self@.len(),
                forall|k: int| 0 <= k < i ==> (#[trigger] self@[k]).slot != t,
            decreases self@.len() - i,
        {
            if self.icons[i].slot == t {
                return Some(&self.icons[i].image);
            }
            i = i + 1;
        }
        None
    }

    /// The slots filled, in the order their images were added.
    pub fn slots(&self) -> (r: Vec<SlotType>)
        ensures
            r@.len() == self@.len(),
            forall|i: int| 0 <= i < r@.len() ==> r@[i] == (#[trigger] self@[i]).slot,
    {
        let mut r: Vec<SlotType> = Vec::new();
        let mut i: usize = 0;
        while i < self.icons.len()
            invariant
                i <= self@.len(),
                r@.len() == i,
                forall|k: int| 0 <= k < i ==> r@[k] == (#[trigger] self@[k]).slot,
            decreases self@.len() - i,
        {
            r.push(self.icons[i].slot);
            i = i + 1;
        }
        r
    }

    /// Offers one image at a display density. An image that fits no slot, or
    /// whose slot is already filled, is skipped and the family is left as it
    /// was: the first image offered for a slot wins. Otherwise the image,
    /// shrunk to the slot's size where it is larger, fills its slot; an image
    /// whose pixel format cannot be encoded is refused with an error.
    pub fn add(&mut self, image: &PixelImage, density: Density) -> (r: Result<Insertion, PackError>)
        requires
            old(self).wf(),
            image.wf(),
        ensures
            final(self).wf(),
            match target_of(*image, density) {
                None => r == Ok::<Insertion, PackError>(Insertion::Unusable) && final(self)@ == old(self)@,
                Some(t) => if slot_taken(old(self)@, t) {
                    r == Ok::<Insertion, PackError>(Insertion::Duplicate(t)) && final(self)@ == old(self)@
                } else if !image.format.is_supported() {
                    r == Err::<Insertion, PackError>(PackError::UnsupportedPixelFormat(t))
                        && final(self)@ == old(self)@
                } else {
                    &&& r == Ok::<Insertion, PackError>(Insertion::Added(t))
                    &&& final(self)@.len() == old(self)@.len() + 1
                    &&& final(self)@.subrange(0, old(self)@.len() as int) == old(self)@
                    &&& final(self)@.last().slot == t
                    &&& final(self)@.last().image.width == t.size
                    &&& final(self)@.last().image.height == t.size
                    &&& final(self)@.last().image.format == image.format
                    &&& (image.width == t.size && image.height == t.size) ==> final(self)@.last().image.data@
                        == image.data@
                },
            },
            r matches Ok(Insertion::Added(t)) ==> t.size <= image.width && t.size <= image.height,
    {
        let side = image.side();
        let t = match classify(side, density) {
            Classification::Direct(t) => t,
            Classification::NeedsResize(s) => SlotType { size: s, density: density.factor() },
            Classification::Unusable => {
                return Ok(Insertion::Unusable);
            },
        };
        if self.has_slot(t) {
            return Ok(Insertion::Duplicate(t));
        }
        if image.format == PixelFormat::Unsupported {
            return Err(PackError::UnsupportedPixelFormat(t));
        }
        proof {
            crate::slot::lemma_floor_pow2_bounds(side as nat);
        }
        let fitted = if image.width == t.size && image.height == t.size {
            let data = image.data.clone();
            proof {
                assert(data@ =~= image.data@);
            }
            PixelImage { width: image.width, height: image.height, format: image.format, data }
        } else {
            resample(image, t.size)
        };
        let ghost before = self@;
        self.icons.push(Icon { slot: t, image: fitted });
        proof {
            assert(self@.subrange(0, before.len() as int) =~= before);
            assert forall|i: int| 0 <= i < before.len() implies (#[trigger] self@[i]).slot != t by {
                assert(before[i] == self@[i]);
            }
        }
        Ok(Insertion::Added(t))
    }

    /// Encodes the family as an ICNS container. An empty family is refused:
    /// there would be nothing to write.
    pub fn serialize(self) -> (r: Result<Vec<u8>, PackError>)
        requires
            self.wf(),
        ensures
            (self@.len() == 0) <==> (r == Err::<Vec<u8>, PackError>(PackError::EmptyFamily)),
            self@.len() > 0 ==> r is Ok,
            r matches Ok(bytes) ==> has_container_header(bytes@),
            r matches Ok(bytes) ==> bytes@.subrange(8, bytes@.len() as int) == records_of(self@).flatten(),
            r matches Ok(bytes) ==> bytes@.len() >= 8 + 8 * self@.len(),
    {
        if self.icons.len() == 0 {
            return Err(PackError::EmptyFamily);
        }
        let mut family = icns::IconFamily::new();
        proof {
            assert(records_of(self@.subrange(0, 0)) =~= Seq::<Seq<u8>>::empty());
        }
        let mut i: usize = 0;
        while i < self.icons.len()
            invariant
                self.wf(),
                i <= self@.len(),
                icns_records(family) == records_of(self@.subrange(0, i as int)),
                forall|k: int| 0 <= k < i ==> (#[trigger] record_of(self@[k])).len() >= 8,
            decreases self@.len() - i,
        {
            proof {
                assert(records_of(self@.subrange(0, i + 1)) =~= records_of(self@.subrange(0, i as int)).push(
                    record_of(self@[i as int]),
                ));
            }
            if add_icns_icon(&mut family, &self.icons[i]).is_err() {
                return Err(PackError::Encoding);
            }
            i = i + 1;
        }
        proof {
            assert(self@.subrange(0, self@.len() as int) =~= self@);
            lemma_records_len(records_of(self@));
        }
        match write_icns_family(&family) {
            Ok(bytes) => Ok(bytes),
            Err(_) => Err(PackError::Encoding),
        }
    }
}

/// The note that packing records for image `i` of `images`: unusable, a
/// duplicate of an earlier image's slot, or added.
pub open spec fn note_of(images: Seq<(PixelImage, Density)>, i: int) -> Insertion {
    match target_of(images[i].0, images[i].1) {
        None => Insertion::Unusable,
        Some(t) => if exists|j: int|
            0 <= j < i && #[trigger] target_of(images[j].0, images[j].1) == Some(t) {
            Insertion::Duplicate(t)
        } else {
            Insertion::Added(t)
        },
    }
}

/// Image `i` would fill a slot no earlier image filled, but its pixel format
/// cannot be encoded.
pub open spec fn refused_at(images: Seq<(PixelImage, Density)>, i: int) -> bool {
    note_of(images, i) is Added && !images[i].0.format.is_supported()
}

/// Packs images, in the order given, into an ICNS container. Returns the
/// container's bytes and one note per image: each image fills its slot
/// unless it is unusable or an earlier image already filled that slot. An
/// image that would fill a slot but cannot be encoded aborts packing, and so
/// does a family left empty.
pub fn pack(images: &Vec<(PixelImage, Density)>) -> (r: Result<(Vec<u8>, Vec<Insertion>), PackError>)
    requires
        forall|i: int| 0 <= i < images@.len() ==> (#[trigger] images@[i]).0.wf(),
    ensures
        r matches Ok((bytes, notes)) ==> {
            &&& has_container_header(bytes@)
            &&& bytes@.len() >= 16
            &&& notes@.len() == images@.len()
            &&& forall|i: int| 0 <= i < images@.len() ==> #[trigger] notes@[i] == note_of(images@, i)
        },
        (r matches Err(PackError::UnsupportedPixelFormat(_))) <==> exists|i: int|
            0 <= i < images@.len() && #[trigger] refused_at(images@, i),
        r matches Err(PackError::UnsupportedPixelFormat(t)) ==> exists|i: int|
            0 <= i < images@.len() && #[trigger] refused_at(images@, i) && note_of(images@, i)
                == Insertion::Added(t),
        (forall|i: int| 0 <= i < images@.len() ==> !#[trigger] refused_at(images@, i)) ==> {
            if forall|i: int|
                0 <= i < images@.len() ==> #[trigger] target_of(images@[i].0, images@[i].1) is None {
                r == Err::<(Vec<u8>, Vec<Insertion>), PackError>(PackError::EmptyFamily)
            } else {
                r is Ok
            }
        },
{
    let mut family = FamilyBuilder::new();
    let mut notes: Vec<Insertion> = Vec::new();
    let mut i: usize = 0;
    while i < images.len()
        invariant
            forall|k: int| 0 <= k < images@.len() ==> (#[trigger] images@[k]).0.wf(),
            family.wf(),
            i <= images@.len(),
            notes@.len() == i,
            forall|k: int| 0 <= k < i ==> #[trigger] notes@[k] == note_of(images@, k),
            forall|k: int| 0 <= k < i ==> !#[trigger] refused_at(images@, k),
            forall|t: SlotType|
                slot_taken(family@, t) <==> exists|j: int|
                    0 <= j < i && #[trigger] target_of(images@[j].0, images@[j].1) == Some(t),
            (family@.len() == 0) <==> forall|j: int|
                0 <= j < i ==> #[trigger] target_of(images@[j].0, images@[j].1) is None,
        decreases images@.len() - i,
    {
        let entry = &images[i];
        let ghost before = family@;
        let outcome = family.add(&entry.0, entry.1);
        proof {
            let ti = target_of(images@[i as int].0, images@[i as int].1);
            if let Some(t) = ti {
                if !slot_taken(before, t) {
                    assert(!exists|j: int|
                        0 <= j < i && #[trigger] target_of(images@[j].0, images@[j].1) == Some(t));
                    if images@[i as int].0.format.is_supported() {
                        assert(family@.last() == family@[before.len() as int]);
                        assert forall|u: SlotType| slot_taken(family@, u) <==> exists|j: int|
                            0 <= j < i + 1 && #[trigger] target_of(images@[j].0, images@[j].1) == Some(u) by {
                            if slot_taken(before, u) {
                                let k = choose|k: int| 0 <= k < before.len() && (#[trigger] before[k]).slot == u;
                                assert(family@[k] == before[k]);
                            }
                            if slot_taken(family@, u) && u != t {
                                let k = choose|k: int| 0 <= k < family@.len() && (#[trigger] family@[k]).slot == u;
                                assert(k < before.len());
                                assert(family@[k] == before[k]);
                                assert(slot_taken(before, u));
                            }
                            if u == t {
                                assert(family@[before.len() as int].slot == t);
                            }
                        }
                    }
                } else {
                    let k = choose|j: int| 0 <= j < i && #[trigger] target_of(images@[j].0, images@[j].1) == Some(t);
                    assert(0 <= k < i && target_of(images@[k].0, images@[k].1) == Some(t));
                }
            }
        }
        match outcome {
            Ok(note) => {
                notes.push(note);
            },
            Err(e) => {
                proof {
                    assert(refused_at(images@, i as int));
                }
                return Err(e);
            },
        }
        proof {
            assert forall|u: SlotType| slot_taken(family@, u) <==> exists|j: int|
                0 <= j < i + 1 && #[trigger] target_of(images@[j].0, images@[j].1) == Some(u) by {
                if exists|j: int| 0 <= j < i + 1 && #[trigger] target_of(images@[j].0, images@[j].1) == Some(u) {
                    let k = choose|j: int| 0 <= j < i + 1 && #[trigger] target_of(images@[j].0, images@[j].1) == Some(u);
                    if k < i {
                        assert(exists|j: int| 0 <= j < i && #[trigger] target_of(images@[j].0, images@[j].1) == Some(u));
                    }
                }
            }
        }
        i = i + 1;
    }
    match family.serialize() {
        Ok(bytes) => Ok((bytes, notes)),
        Err(e) => Err(e),
    }
}

/// First writer wins: when an earlier image targets the same slot, packing
/// records a later image as a duplicate of that slot, never as added.
pub proof fn lemma_later_image_is_duplicate(images: Seq<(PixelImage, Density)>, i: int, j: int)
    requires
        0 <= i < j < images.len(),
        target_of(images[i].0, images[i].1) is Some,
        target_of(images[j].0, images[j].1) == target_of(images[i].0, images[i].1),
    ensures
        note_of(images, j) == Insertion::Duplicate(target_of(images[i].0, images[i].1)->Some_0),
{
    assert(0 <= i < j && target_of(images[i].0, images[i].1) == target_of(images[j].0, images[j].1));
}

/// Images are never enlarged: the slot an image fills is no wider and no
/// taller than the image itself.
pub proof fn lemma_target_never_upscales(img: PixelImage, density: Density)
    ensures
        target_of(img, density) matches Some(t) ==> t.size <= img.width && t.size <= img.height,
{
    if img.spec_side() >= 1 {
        crate::slot::lemma_floor_pow2_bounds(img.spec_side() as nat);
    }
}

} // verus!
