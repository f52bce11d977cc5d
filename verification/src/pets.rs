//! Artwork of the built-in pets. It neither comes with the program nor is it ever
//! fetched: a pet is there only where a sheet of the right size already is.

use crate::text;
use vstd::prelude::*;
use vstd::string::*;

verus! {

pub open spec fn pack_path(home: Seq<char>) -> Seq<char> {
    text::path_under(text::path_under(home, "cache/tui-pets"@), "v1"@)
}

pub open spec fn sheet_path(home: Seq<char>, file: Seq<char>) -> Seq<char> {
    text::path_under(text::path_under(pack_path(home), "assets"@), file)
}

/// The directory of the artwork.
pub fn pack_dir(home: &str) -> (r: String)
    ensures
        r@ == pack_path(home@),
{
    let base = text::join_path(home, "cache/tui-pets");
    text::join_path(base.as_str(), "v1")
}

/// Where the sheet of a pet lies.
pub fn builtin_spritesheet_path(home: &str, file: &str) -> (r: String)
    ensures
        r@ == sheet_path(home@, file@),
{
    let assets = text::join_path(pack_dir(home).as_str(), "assets");
    text::join_path(assets.as_str(), file)
}

/// The size of a sheet.
#[derive(Debug, Clone, Copy, PartialEq, Eq, Structural)]
pub struct SheetSize {
    pub width: u32,
    pub height: u32,
}

pub open spec fn size_text(s: SheetSize) -> Seq<char> {
    text::decimal(s.width as nat) + "x"@ + text::decimal(s.height as nat)
}

pub open spec fn wrong_size(path: Seq<char>, wanted: SheetSize, found: SheetSize) -> Seq<char> {
    "invalid pet spritesheet dimensions for "@ + path + ": expected "@ + size_text(wanted)
        + ", got "@ + size_text(found)
}

fn show_size(s: SheetSize) -> (r: String)
    ensures
        r@ == size_text(s),
{
    let mut out = text::decimal_string(s.width as u128);
    out.append("x");
    out.append(text::decimal_string(s.height as u128).as_str());
    out
}

/// Checks a sheet that is there: it must have the size that is wanted.
pub fn validate_spritesheet(path: &str, wanted: SheetSize, found: SheetSize) -> (r: Result<
    (),
    String,
>)
    ensures
        if wanted == found {
            r is Ok
        } else {
            r matches Err(m) && m@ == wrong_size(path@, wanted, found)
        },
{
    if wanted.width == found.width && wanted.height == found.height {
        return Ok(());
    }
    let mut m = "invalid pet spritesheet dimensions for ".to_string();
    m.append(path);
    m.append(": expected ");
    m.append(show_size(wanted).as_str());
    m.append(", got ");
    m.append(show_size(found).as_str());
    Err(m)
}

/// Whether a pet is there. `found` is the size of its sheet, where one could be read.
pub fn ensure_builtin_pet(home: &str, file: &str, wanted: SheetSize, found: Option<SheetSize>) -> (r:
    Result<(), String>)
    ensures
        if found == Some(wanted) {
            r is Ok
        } else {
            r matches Err(m) && m@
                == "built-in pet artwork is not available in this build (no spritesheet at "@
                + sheet_path(home@, file@) + ")"@
        },
{
    let path = builtin_spritesheet_path(home, file);
    match found {
        Some(f) => match validate_spritesheet(path.as_str(), wanted, f) {
            Ok(_) => {
                return Ok(());
            },
            Err(_) => {},
        },
        None => {},
    }
    let mut m =
        "built-in pet artwork is not available in this build (no spritesheet at ".to_string();
    m.append(path.as_str());
    m.append(")");
    Err(m)
}

} // verus!
