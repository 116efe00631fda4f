//! Picking the app icon's name out of an asset catalog's listing.
use vstd::prelude::*;
use vstd::utf8::encode_utf8;

verus! {

/// One entry of an asset catalog's listing: its asset type and its name.
#[derive(Clone, Debug)]
pub struct AssetsCarInfo {
    pub asset_type: String,
    pub name: String,
}

/// The asset type of an app icon's image: `Icon Image`.
pub open spec fn icon_image_type() -> Seq<u8> {
    seq![0x49u8, 0x63u8, 0x6fu8, 0x6eu8, 0x20u8, 0x49u8, 0x6du8, 0x61u8, 0x67u8, 0x65u8]
}

/// The entry is an app icon's image.
pub open spec fn is_icon_image(info: AssetsCarInfo) -> bool {
    encode_utf8(info.asset_type@) == icon_image_type()
}

fn asset_type_is_icon_image(info: &AssetsCarInfo) -> (r: bool)
    ensures
        r == is_icon_image(*info),
{
    let key: [u8; 10] = [0x49u8, 0x63u8, 0x6fu8, 0x6eu8, 0x20u8, 0x49u8, 0x6du8, 0x61u8, 0x67u8, 0x65u8];
    assert(key@ =~= icon_image_type());
    let b = info.asset_type.as_str().as_bytes();
    if b.len() != 10 {
        return false;
    }
    let mut k: usize = 0;
    while k < 10
        invariant
            b@.len() == 10,
            key@ == icon_image_type(),
            k <= 10,
            forall|m: int| 0 <= m < k ==> b@[m] == key@[m],
            b@ == encode_utf8(info.asset_type@),
        decreases 10 - k,
    {
        if b[k] != key[k] {
            assert(b@[k as int] != icon_image_type()[k as int]);
            return false;
        }
        k = k + 1;
    }
    assert(b@ =~= key@);
    true
}

/// The name of the first entry whose type is `Icon Image`, if any.
pub fn app_icon_name(infos: &Vec<AssetsCarInfo>) -> (r: Option<String>)
    ensures
        match r {
            Some(name) => exists|i: int|
                0 <= i < infos@.len() && is_icon_image(#[trigger] infos@[i]) && name@ == infos@[i].name@
                    && forall|j: int| 0 <= j < i ==> !is_icon_image(#[trigger] infos@[j]),
            None => forall|i: int| 0 <= i < infos@.len() ==> !is_icon_image(#[trigger] infos@[i]),
        },
{
    let mut i: usize = 0;
    while i < infos.len()
        invariant
            i <= infos@.len(),
            forall|j: int| 0 <= j < i ==> !is_icon_image(#[trigger] infos@[j]),
        decreases infos@.len() - i,
    {
        if asset_type_is_icon_image(&infos[i]) {
            return Some(infos[i].name.clone());
        }
        i = i + 1;
    }
    None
}

} // verus!
