//! Cursor image selection: of the images in a cursor theme file, the one
//! whose nominal size is nearest the requested size.

use vstd::prelude::*;

use crate::input::{nearest_size_index, size_distance};

verus! {

/// One image of a parsed cursor file: nominal size, pixel extent, hotspot,
/// and RGBA pixel bytes.
#[derive(Debug)]
pub struct CursorImage {
    pub size: u32,
    pub width: u32,
    pub height: u32,
    pub xhot: u32,
    pub yhot: u32,
    pub pixels_rgba: Vec<u8>,
}

/// Plain-value view of a cursor image.
pub struct CursorImageView {
    pub size: u32,
    pub width: u32,
    pub height: u32,
    pub xhot: u32,
    pub yhot: u32,
    pub pixels_rgba: Seq<u8>,
}

impl View for CursorImage {
    type V = CursorImageView;

    open spec fn view(&self) -> CursorImageView {
        CursorImageView {
            size: self.size,
            width: self.width,
            height: self.height,
            xhot: self.xhot,
            yhot: self.yhot,
            pixels_rgba: self.pixels_rgba@,
        }
    }
}

/// The images the Xcursor file parser finds in `bytes`, in file order;
/// `None` when the bytes are not a well-formed cursor file.
pub uninterp spec fn parsed_cursor_images(bytes: Seq<u8>) -> Option<Seq<CursorImageView>>;

/// Parses an Xcursor file with `xcursor::parser::parse_xcursor`. Claimed of
/// it: the result is a function of the bytes alone (named
/// `parsed_cursor_images`), each image carried over field by field. Nothing
/// is claimed about which byte strings parse or what they parse to. The
/// parser allocates in proportion to the sizes the file declares, so a
/// machine short of memory may not return from it.
#[verifier::external_body]
fn parse_cursor_file(bytes: &[u8]) -> (images: Option<Vec<CursorImage>>)
    ensures
        images is None <==> parsed_cursor_images(bytes@) is None,
        images matches Some(v) ==> parsed_cursor_images(bytes@) == Some(
            v@.map_values(|image: CursorImage| image@),
        ),
{
    xcursor::parser::parse_xcursor(bytes).map(|images| {
        images.into_iter().map(|image| CursorImage {
            size: image.size,
            width: image.width,
            height: image.height,
            xhot: image.xhot,
            yhot: image.yhot,
            pixels_rgba: image.pixels_rgba,
        }).collect()
    })
}

/// `best` is the first of the images whose nominal size is nearest `target`.
pub open spec fn is_nearest_image(images: Seq<CursorImageView>, target: u32, best: int) -> bool {
    &&& 0 <= best < images.len()
    &&& forall|j: int| 0 <= j < images.len() ==> size_distance(target, images[best].size)
        <= #[trigger] size_distance(target, images[j].size)
    &&& forall|j: int| 0 <= j < best ==> size_distance(target, images[best].size)
        < #[trigger] size_distance(target, images[j].size)
}

/// Parse a cursor file and pick the image whose nominal size is nearest
/// `target` (the first of equally near ones). `None` when the file does not
/// parse or holds no image.
pub fn select_cursor_image(bytes: &[u8], target: u32) -> (best: Option<CursorImage>)
    ensures
        parsed_cursor_images(bytes@) is None ==> best is None,
        parsed_cursor_images(bytes@) matches Some(images) ==> (best is None <==> images.len() == 0),
        best matches Some(image) ==> (parsed_cursor_images(bytes@) matches Some(images) && exists|i: int|
            is_nearest_image(images, target, i) && image@ == images[i]),
{
    let images = parse_cursor_file(bytes);
    match images {
        None => None,
        Some(mut images) => {
            let ghost views = parsed_cursor_images(bytes@)->Some_0;
            let mut sizes: Vec<u32> = Vec::new();
            let mut i: usize = 0;
            while i < images.len()
                invariant
                    i <= images@.len(),
                    sizes@.len() == i,
                    forall|k: int| 0 <= k < i ==> sizes@[k] == #[trigger] images@[k].size,
                decreases images@.len() - i,
            {
                sizes.push(images[i].size);
                i = i + 1;
            }
            match nearest_size_index(sizes.as_slice(), target) {
                None => None,
                Some(best) => {
                    proof {
                        assert(views.len() == sizes@.len());
                        assert forall|j: int| 0 <= j < views.len() implies #[trigger] views[j].size
                            == sizes@[j] by {
                            assert(views[j] == images@[j]@);
                        }
                        assert(is_nearest_image(views, target, best as int));
                    }
                    let image = images.swap_remove(best);
                    proof {
                        assert(image@ == views[best as int]);
                    }
                    Some(image)
                },
            }
        },
    }
}

} // verus!
