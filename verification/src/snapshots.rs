//! Pictures of pages that later ones are compared with.
use vstd::prelude::*;
use crate::images::bytes_agree;
use crate::images::lemma_products;
use crate::images::pixmaps_are_equal;
use crate::images::Picture;
use crate::images::PictureModel;
use crate::pixel::buffer_bytes;
use crate::pixel::opaque;
use crate::pixel::rgb_buffer_to_premul_bytes;
use crate::text::push_text;

verus! {

/// What comparing a page with a stored picture of it leads to.
#[derive(Debug, Clone, Copy, PartialEq, Eq, Structural)]
pub enum SnapshotOutcome {
    /// The page cannot be a picture: a side is zero, a row is too long, or there are not as many
    /// pixels as the sides say.
    NoPicture,
    /// It looks as it did.
    Matches,
    /// There is nothing to compare it with: it becomes the stored picture.
    Created,
    /// It looks different, and is kept beside the stored picture.
    Invalid,
}

/// Whether pixels make a picture of a size. An `i32` counts the bytes of a row.
pub open spec fn is_picture(pixels: nat, width: u32, height: u32) -> bool {
    &&& width > 0 && height > 0
    &&& width * 4 <= i32::MAX
    &&& pixels == width * height * 4
}

/// What comparing the bytes of a page with a stored picture of it leads to.
pub open spec fn snapshot_outcome(
    bytes: Seq<u8>,
    width: u32,
    height: u32,
    stored: Option<PictureModel>,
) -> SnapshotOutcome {
    if !is_picture(bytes.len(), width, height) {
        SnapshotOutcome::NoPicture
    } else {
        match stored {
            None => SnapshotOutcome::Created,
            Some(stored) => if stored.width == width && stored.height == height && bytes_agree(
                bytes,
                stored.pixels,
            ) {
                SnapshotOutcome::Matches
            } else {
                SnapshotOutcome::Invalid
            },
        }
    }
}

/// Where the picture of a page is stored.
pub open spec fn snapshot_path(name: Seq<char>) -> Seq<char> {
    "snapshots/"@ + name + ".png"@
}

/// Where a page that looks different is stored.
pub open spec fn invalid_path(name: Seq<char>) -> Seq<char> {
    "snapshots/"@ + name + ".invalid.png"@
}

/// Where the picture of a page is stored.
pub fn get_snapshot_path(name: &str) -> (r: String)
    ensures
        r@ == snapshot_path(name@),
{
    let mut path = String::new();
    push_text(&mut path, "snapshots/");
    push_text(&mut path, name);
    push_text(&mut path, ".png");
    path
}

/// What is written once a page was compared with its picture: where, and which picture.
pub open spec fn snapshot_written(
    bytes: Seq<u8>,
    name: Seq<char>,
    width: u32,
    height: u32,
    outcome: SnapshotOutcome,
) -> Option<(Seq<char>, PictureModel)> {
    let shown = PictureModel { width, height, pixels: bytes };
    match outcome {
        SnapshotOutcome::Created => Some((snapshot_path(name), shown)),
        SnapshotOutcome::Invalid => Some((invalid_path(name), shown)),
        _ => None,
    }
}

/// A picture and the path that it is written to.
#[derive(Debug, Clone, PartialEq)]
pub struct Snapshot {
    pub path: String,
    pub picture: Picture,
}

/// Compares a page with the stored picture of it. Gives what came of it, and what is to be written.
pub fn ensure_snapshot_matches(
    buffer: &Vec<u32>,
    name: &str,
    width: u32,
    height: u32,
    stored: Option<&Picture>,
) -> (r: (SnapshotOutcome, Option<Snapshot>))
    ensures
        ({
            let bytes = buffer_bytes(buffer@, |pixel: u32| opaque(pixel));
            let before = match stored {
                Some(picture) => Some(picture@),
                None => None,
            };
            let written = match r.1 {
                Some(snapshot) => Some((snapshot.path@, snapshot.picture@)),
                None => None,
            };
            &&& r.0 == snapshot_outcome(bytes, width, height, before)
            &&& written == snapshot_written(bytes, name@, width, height, r.0)
        }),
{
    let pixels = rgb_buffer_to_premul_bytes(buffer.as_slice());
    proof {
        lemma_products(width, height);
    }
    if width == 0 || height == 0 || width > i32::MAX as u32 / 4 || pixels.len() as u128 != width as u128
        * height as u128 * 4 {
        return (SnapshotOutcome::NoPicture, None);
    }
    let picture = Picture { width, height, pixels };
    match stored {
        None => {
            let path = get_snapshot_path(name);
            (SnapshotOutcome::Created, Some(Snapshot { path, picture }))
        },
        Some(stored) => {
            if pixmaps_are_equal(&picture, stored) {
                return (SnapshotOutcome::Matches, None);
            }
            let mut path = String::new();
            push_text(&mut path, "snapshots/");
            push_text(&mut path, name);
            push_text(&mut path, ".invalid.png");
            (SnapshotOutcome::Invalid, Some(Snapshot { path, picture }))
        },
    }
}

/// What comes of comparing a page with what is stored by path, and what is stored then.
pub open spec fn ensured(
    store: Map<Seq<char>, PictureModel>,
    bytes: Seq<u8>,
    name: Seq<char>,
    width: u32,
    height: u32,
) -> (SnapshotOutcome, Map<Seq<char>, PictureModel>) {
    let path = snapshot_path(name);
    let stored = if store.dom().contains(path) {
        Some(store[path])
    } else {
        None
    };
    let outcome = snapshot_outcome(bytes, width, height, stored);
    (
        outcome,
        match snapshot_written(bytes, name, width, height, outcome) {
            Some((path, picture)) => store.insert(path, picture),
            None => store,
        },
    )
}

/// A page matches exactly if it is a picture and the picture that is stored of it has its size and its
/// bytes. Nothing is written then, nor where it is no picture. Where none is stored, the page becomes
/// it, and matches from then on. Where it differs, what is stored of it stays, and the page is stored
/// beside it.
pub proof fn lemma_ensured(
    store: Map<Seq<char>, PictureModel>,
    bytes: Seq<u8>,
    name: Seq<char>,
    width: u32,
    height: u32,
)
    requires
        forall|path: Seq<char>| #[trigger]
            store.dom().contains(path) ==> store[path].pixels.len() == store[path].width
                * store[path].height * 4,
    ensures
        ({
            let path = snapshot_path(name);
            let shown = PictureModel { width, height, pixels: bytes };
            let (outcome, after) = ensured(store, bytes, name, width, height);
            let fits = is_picture(bytes.len(), width, height);
            &&& outcome is NoPicture == !fits
            &&& outcome is Matches == (fits && store.dom().contains(path) && store[path] == shown)
            &&& outcome is NoPicture || outcome is Matches ==> after == store
            &&& fits && !store.dom().contains(path) ==> {
                &&& outcome is Created
                &&& after == store.insert(path, shown)
                &&& ensured(after, bytes, name, width, height) == (SnapshotOutcome::Matches, after)
            }
            &&& fits && store.dom().contains(path) && store[path] != shown ==> {
                &&& outcome is Invalid
                &&& after == store.insert(invalid_path(name), shown)
                &&& after.dom().contains(path) && after[path] == store[path]
            }
        }),
{
    let path = snapshot_path(name);
    let shown = PictureModel { width, height, pixels: bytes };
    reveal_strlit("snapshots/");
    reveal_strlit(".png");
    reveal_strlit(".invalid.png");
    assert(path.len() != invalid_path(name).len());
    if is_picture(bytes.len(), width, height) && store.dom().contains(path) {
        let stored = store[path];
        if stored.width == width && stored.height == height && bytes_agree(bytes, stored.pixels) {
            assert(stored.pixels =~= bytes);
        }
    }
}

} // verus!
