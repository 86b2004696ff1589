//! The wallpaper: its standard location, the shell script that
//! installs a new image, and the encoding of the current image for the
//! UI layer.

use vstd::prelude::*;
use vstd::string::*;

use base64::Engine;

verus! {

/// What the standard alphabet's padded base64 rendering of a byte
/// sequence is; the encoder alone defines it, from the bytes alone.
pub uninterp spec fn base64_of(bytes: Seq<u8>) -> Seq<char>;

/// Relies on base64's `Engine::encode` with the standard engine: a
/// deterministic rendering of the bytes, four characters for every
/// started group of three bytes.  The encoder aborts when the encoded
/// length cannot be computed in a machine word, so inputs that large
/// are excluded.
#[verifier::external_body]
fn encode_base64(bytes: &Vec<u8>) -> (r: String)
    requires
        4 * ((bytes@.len() + 2) / 3) <= usize::MAX,
    ensures
        r@ == base64_of(bytes@),
        r@.len() == 4 * ((bytes@.len() + 2) / 3),
{
    base64::engine::general_purpose::STANDARD.encode(bytes)
}

/// Encode the wallpaper's bytes for the UI layer.
pub fn wallpaper_base64(bytes: &Vec<u8>) -> (r: String)
    requires
        4 * ((bytes@.len() + 2) / 3) <= usize::MAX,
    ensures
        r@ == base64_of(bytes@),
        r@.len() == 4 * ((bytes@.len() + 2) / 3),
{
    encode_base64(bytes)
}

/// Where the current wallpaper lives under the given home directory.
pub fn wallpaper_path(home: &str) -> (r: String)
    ensures
        r@ == home@ + "/.config/hypr/themes/background.png"@,
{
    let mut r = home.to_owned();
    r.append("/.config/hypr/themes/background.png");
    r
}

/// The shell script that installs a wallpaper: copy the file to the
/// standard location and hand it to the wallpaper daemon.
pub open spec fn wallpaper_script_spec(file_path: Seq<char>) -> Seq<char> {
    "\n        mkdir -p ~/.config/hypr/themes\n        rm -f ~/.config/hypr/themes/background.png\n        cp \""@
        + file_path
        + "\" ~/.config/hypr/themes/background.png\n        swww img ~/.config/hypr/themes/background.png --transition-fps 60 --transition-step 255 --transition-type any\n        "@
}

/// Build the wallpaper installation script; an empty path is refused.
pub fn wallpaper_script(file_path: &str) -> (r: Result<String, String>)
    ensures
        match r {
            Ok(script) => file_path@.len() > 0 && script@ == wallpaper_script_spec(file_path@),
            Err(m) => file_path@.len() == 0 && m@ == "File path is empty"@,
        },
{
    if file_path.unicode_len() == 0 {
        return Err(String::from_str("File path is empty"));
    }
    let mut r = String::from_str(
        "\n        mkdir -p ~/.config/hypr/themes\n        rm -f ~/.config/hypr/themes/background.png\n        cp \"",
    );
    r.append(file_path);
    r.append(
        "\" ~/.config/hypr/themes/background.png\n        swww img ~/.config/hypr/themes/background.png --transition-fps 60 --transition-step 255 --transition-type any\n        ",
    );
    Ok(r)
}

} // verus!
