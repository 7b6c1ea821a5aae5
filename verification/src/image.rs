//! Loading of texture images.

use vstd::prelude::*;

verus! {

/// `std::io::Error`, the error of an image that cannot be read. It is carried
/// as an opaque value.
#[verifier::external_type_specification]
#[verifier::external_body]
pub struct ExIoError(std::io::Error);

/// The pixels of an image, four bytes each (red, green, blue, alpha), and its
/// width and height in pixels.
pub struct ImageData {
    pub raw_bytes: Vec<u8>,
    pub image_dimensions: (u32, u32),
}

/// The file type that a path names: the part after its last `.`, or all of
/// the path if it has none.
pub open spec fn file_type(path: Seq<char>) -> Seq<char>
    decreases path.len(),
{
    if path.len() == 0 {
        path
    } else if path.last() == '.' {
        Seq::empty()
    } else {
        file_type(path.drop_last()).push(path.last())
    }
}

/// A path names the file type `png` exactly when it ends in `png` and these
/// three letters are all of it or stand behind a `.`.
pub proof fn lemma_png_paths(path: Seq<char>)
    ensures
        (file_type(path) == seq!['p', 'n', 'g']) <==> {
            let n = path.len() as int;
            &&& n >= 3
            &&& path[n - 1] == 'g'
            &&& path[n - 2] == 'n'
            &&& path[n - 3] == 'p'
            &&& (n == 3 || path[n - 4] == '.')
        },
{
    let n = path.len() as int;
    let png = seq!['p', 'n', 'g'];
    let a = path.drop_last();
    let b = a.drop_last();
    let c = b.drop_last();
    reveal_with_fuel(file_type, 5);
    if n >= 1 && path[n - 1] != '.' {
        assert(file_type(path) == file_type(a).push(path[n - 1]));
        assert(file_type(path).last() == path[n - 1]);
        assert(file_type(path).drop_last() =~= file_type(a));
        assert(png.last() == 'g');
        assert(png.drop_last() =~= seq!['p', 'n']);
        if n >= 2 && path[n - 2] != '.' {
            assert(a[n - 2] == path[n - 2]);
            assert(file_type(a) == file_type(b).push(path[n - 2]));
            assert(file_type(a).last() == path[n - 2]);
            assert(file_type(a).drop_last() =~= file_type(b));
            assert(seq!['p', 'n'].last() == 'n');
            assert(seq!['p', 'n'].drop_last() =~= seq!['p']);
            if n >= 3 && path[n - 3] != '.' {
                assert(b[n - 3] == path[n - 3]);
                assert(file_type(b) == file_type(c).push(path[n - 3]));
                assert(file_type(b).last() == path[n - 3]);
                assert(file_type(b).drop_last() =~= file_type(c));
                assert(seq!['p'].last() == 'p');
                assert(seq!['p'].drop_last() =~= Seq::<char>::empty());
                if n >= 4 {
                    assert(c[n - 4] == path[n - 4]);
                    if path[n - 4] != '.' {
                        assert(file_type(c).len() >= 1);
                    }
                }
                if file_type(c) =~= Seq::<char>::empty() && path[n - 3] == 'p' && path[n - 2] == 'n'
                    && path[n - 1] == 'g' {
                    assert(file_type(b) =~= seq!['p']);
                    assert(file_type(a) =~= seq!['p', 'n']);
                    assert(file_type(path) =~= png);
                }
            } else {
                assert(file_type(b).len() == 0);
                assert(file_type(a).len() == 1);
                assert(file_type(path).len() == 2);
            }
        } else {
            assert(file_type(a).len() == 0);
            assert(file_type(path).len() == 1);
        }
    } else {
        assert(file_type(path).len() == 0);
    }
    assert(png.len() == 3);
}

/// Whether `path` names the file type `png`.
pub fn is_png(path: &str) -> (png: bool)
    ensures
        png == (file_type(path@) == seq!['p', 'n', 'g']),
{
    proof {
        lemma_png_paths(path@);
    }
    let n = path.unicode_len();
    if n < 3 {
        return false;
    }
    path.get_char(n - 1) == 'g' && path.get_char(n - 2) == 'n' && path.get_char(n - 3) == 'p' && (n
        == 3 || path.get_char(n - 4) == '.')
}

/// The data is the placeholder texture: a single opaque white pixel.
pub open spec fn is_white_pixel(data: ImageData) -> bool {
    &&& data.raw_bytes@ == seq![255u8, 255u8, 255u8, 255u8]
    &&& data.image_dimensions == (1u32, 1u32)
}

/// Loads the image at `path`, whose file type must be `png`, the only one
/// that is known.
pub fn load(path: String) -> (data: Result<ImageData, std::io::Error>)
    requires
        file_type(path@) == seq!['p', 'n', 'g'],
    ensures
        data is Ok,
        is_white_pixel(data.unwrap()),
{
    load_png(path)
}

/// Loads a png image. Every png is taken for the placeholder texture,
/// whatever the file holds.
pub fn load_png(path: String) -> (data: Result<ImageData, std::io::Error>)
    ensures
        data is Ok,
        is_white_pixel(data.unwrap()),
{
    let mut raw_bytes: Vec<u8> = Vec::new();
    raw_bytes.push(255);
    raw_bytes.push(255);
    raw_bytes.push(255);
    raw_bytes.push(255);
    let data = ImageData { raw_bytes, image_dimensions: (1, 1) };
    proof {
        assert(data.raw_bytes@ =~= seq![255u8, 255u8, 255u8, 255u8]);
    }
    Ok(data)
}

} // verus!
