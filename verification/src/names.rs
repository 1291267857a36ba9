//! Names of files: the icon shown for an entry, which extensions preview
//! as images, Quick Look thumbnails or text, and a file's extension.

use crate::text::{chars_eq, chars_of, decimal, push_char, push_decimal, push_str, string_from_range};
use vstd::prelude::*;

verus! {

/// The characters of `v` spell out `lit`.
fn is_lit(v: &[char], lit: &str) -> (r: bool)
    ensures
        r == (v@ == lit@),
{
    let l = chars_of(lit);
    chars_eq(v, l.as_slice())
}

/// What follows the last `.` of `s`, or all of `s` when it has none
/// (`s.rsplit('.').next()`).
pub open spec fn after_last_dot(s: Seq<char>) -> Seq<char>
    decreases s.len(),
{
    if s.len() == 0 {
        s
    } else if s.last() == '.' {
        seq![]
    } else {
        after_last_dot(s.drop_last()).push(s.last())
    }
}

/// The text after the last `.` of a name (see [`after_last_dot`]).
pub fn extension_of(name: &str) -> (r: String)
    ensures
        r@ == after_last_dot(name@),
{
    let v = chars_of(name);
    let n = v.len();
    let mut i: usize = n;
    assert(v@.take(n as int) =~= v@);
    assert(v@.skip(n as int) =~= seq![]);
    while i > 0 && v[i - 1] != '.'
        invariant
            i <= v@.len() == n,
            after_last_dot(v@) == after_last_dot(v@.take(i as int)) + v@.skip(i as int),
        decreases i,
    {
        proof {
            let t = v@.take(i as int);
            assert(t.drop_last() =~= v@.take(i - 1));
            assert(t.last() == v@[i - 1]);
            assert(after_last_dot(t) == after_last_dot(v@.take(i - 1)).push(v@[i - 1]));
            assert(after_last_dot(v@.take(i - 1)).push(v@[i - 1]) + v@.skip(i as int)
                =~= after_last_dot(v@.take(i - 1)) + v@.skip(i - 1));
        }
        i -= 1;
    }
    proof {
        if i == 0 {
            assert(v@.take(0) =~= seq![]);
        }
        assert(after_last_dot(v@.take(i as int)) =~= seq![]);
        assert(v@.skip(i as int) =~= v@.subrange(i as int, n as int));
    }
    string_from_range(v.as_slice(), i, n)
}

/// ASCII upper-case letters to lower case, other characters unchanged.
pub open spec fn lower_ascii_char(c: char) -> char {
    if 'A' <= c <= 'Z' {
        ((c as u32) + 32) as char
    } else {
        c
    }
}

/// [`lower_ascii_char`] on every character.
pub open spec fn ascii_lower(s: Seq<char>) -> Seq<char> {
    s.map_values(|c: char| lower_ascii_char(c))
}

/// `str::to_ascii_lowercase`: `A`..`Z` to `a`..`z`, every other character
/// as it is.
pub(crate) fn to_ascii_lowercase(s: &str) -> (r: String)
    ensures
        r@ == ascii_lower(s@),
{
    let v = chars_of(s);
    let mut out = String::new();
    let mut i: usize = 0;
    while i < v.len()
        invariant
            i <= v@.len(),
            v@ == s@,
            out@ == ascii_lower(v@.take(i as int)),
        decreases v@.len() - i,
    {
        let c = v[i];
        let d = if 'A' <= c && c <= 'Z' {
            ((c as u8) + 32) as char
        } else {
            c
        };
        assert(d == lower_ascii_char(c));
        push_char(&mut out, d);
        assert(ascii_lower(v@.take(i + 1)) =~= ascii_lower(v@.take(i as int)).push(lower_ascii_char(v@[i as int])));
        i += 1;
    }
    assert(v@.take(v@.len() as int) =~= v@);
    out
}

/// The icon of a file by its lower-cased extension.
pub open spec fn ext_icon(ext: Seq<char>) -> Seq<char> {
    match code_icon(ext) {
        Some(i) => i,
        None => match document_icon(ext) {
            Some(i) => i,
            None => match media_icon(ext) {
                Some(i) => i,
                None => "📄"@,
            },
        },
    }
}

/// The icon of an entry: a directory's by its name, a file's by its
/// extension (what follows the last `.`), compared without ASCII case.
pub open spec fn file_icon_spec(is_dir: bool, name: Seq<char>) -> Seq<char> {
    if is_dir {
        dir_icon(name)
    } else {
        ext_icon(ascii_lower(after_last_dot(name)))
    }
}

/// The icon shown for an entry (see [`file_icon_spec`]).
pub fn file_icon(is_dir: bool, name: &str) -> (r: &'static str)
    ensures
        r@ == file_icon_spec(is_dir, name@),
{
    if is_dir {
        let v = chars_of(name);
        return dir_icon_of(v.as_slice());
    }
    let ext = extension_of(name);
    let lower = to_ascii_lowercase(ext.as_str());
    let e = chars_of(lower.as_str());
    match code_icon_of(e.as_slice()) {
        Some(i) => i,
        None => match document_icon_of(e.as_slice()) {
            Some(i) => i,
            None => match media_icon_of(e.as_slice()) {
                Some(i) => i,
                None => "📄",
            },
        },
    }
}

/// The icon of a directory, by its name.
pub open spec fn dir_icon(name: Seq<char>) -> Seq<char> {
    if name == ".git"@ {
        "🌳"@
    } else if name == ".github"@ {
        "🐙"@
    } else if name == "node_modules"@ {
        "📦"@
    } else if name == "target"@ || name == "build"@ || name == "dist"@ || name == "out"@ {
        "🛠️"@
    } else if name == "src"@ || name == "lib"@ {
        "📂"@
    } else if name == "assets"@ || name == "static"@ || name == "public"@ || name == "images"@
        || name == "img"@ {
        "🖼️"@
    } else if name == "docs"@ || name == "doc"@ {
        "📚"@
    } else if name == "tests"@ || name == "test"@ || name == "__tests__"@ {
        "🧪"@
    } else if name == "scripts"@ {
        "📜"@
    } else if name == "Desktop"@ {
        "🖥️"@
    } else if name == "Downloads"@ {
        "⬇️"@
    } else if name == "Documents"@ {
        "📑"@
    } else if name == "Applications"@ {
        "🚀"@
    } else if name == "Pictures"@ {
        "🖼️"@
    } else if name == "Movies"@ {
        "🎬"@
    } else if name == "Music"@ {
        "🎵"@
    } else {
        "📁"@
    }
}

/// Icons of source files, by extension.
pub open spec fn code_icon(ext: Seq<char>) -> Option<Seq<char>> {
    if ext == "rs"@ {
        Some("🦀"@)
    } else if ext == "py"@ {
        Some("🐍"@)
    } else if ext == "go"@ {
        Some("🐹"@)
    } else if ext == "rb"@ {
        Some("💎"@)
    } else if ext == "swift"@ {
        Some("🦅"@)
    } else if ext == "ts"@ || ext == "tsx"@ {
        Some("🟦"@)
    } else if ext == "js"@ || ext == "jsx"@ || ext == "mjs"@ || ext == "cjs"@ {
        Some("🟨"@)
    } else if ext == "html"@ || ext == "htm"@ {
        Some("🌐"@)
    } else if ext == "css"@ || ext == "scss"@ || ext == "sass"@ || ext == "less"@ {
        Some("🎨"@)
    } else if ext == "java"@ || ext == "kt"@ || ext == "scala"@ {
        Some("☕"@)
    } else if ext == "c"@ || ext == "h"@ || ext == "cpp"@ || ext == "hpp"@ || ext == "cc"@
        || ext == "cxx"@ {
        Some("🔧"@)
    } else if ext == "lua"@ {
        Some("🌙"@)
    } else if ext == "vim"@ {
        Some("📝"@)
    } else if ext == "el"@ {
        Some("🧠"@)
    } else if ext == "sh"@ || ext == "zsh"@ || ext == "bash"@ || ext == "fish"@ {
        Some("🐚"@)
    } else {
        None
    }
}

/// Icons of configuration, data and document files, by extension.
pub open spec fn document_icon(ext: Seq<char>) -> Option<Seq<char>> {
    if ext == "toml"@ || ext == "ini"@ || ext == "cfg"@ || ext == "conf"@ {
        Some("⚙️"@)
    } else if ext == "yaml"@ || ext == "yml"@ {
        Some("📋"@)
    } else if ext == "json"@ || ext == "json5"@ || ext == "jsonc"@ {
        Some("🧾"@)
    } else if ext == "xml"@ {
        Some("📰"@)
    } else if ext == "csv"@ || ext == "tsv"@ {
        Some("📊"@)
    } else if ext == "sql"@ {
        Some("🗄️"@)
    } else if ext == "env"@ {
        Some("🔐"@)
    } else if ext == "lock"@ {
        Some("🔒"@)
    } else if ext == "gitignore"@ || ext == "gitattributes"@ {
        Some("🌳"@)
    } else if ext == "md"@ || ext == "mdx"@ || ext == "rst"@ {
        Some("📝"@)
    } else if ext == "txt"@ || ext == "log"@ {
        Some("📃"@)
    } else if ext == "pdf"@ {
        Some("📕"@)
    } else if ext == "docx"@ || ext == "doc"@ || ext == "pages"@ {
        Some("📄"@)
    } else if ext == "xlsx"@ || ext == "xls"@ || ext == "numbers"@ {
        Some("📊"@)
    } else if ext == "pptx"@ || ext == "ppt"@ || ext == "key"@ {
        Some("📽️"@)
    } else {
        None
    }
}

/// Icons of media, archives and installers, by extension.
pub open spec fn media_icon(ext: Seq<char>) -> Option<Seq<char>> {
    if ext == "png"@ || ext == "jpg"@ || ext == "jpeg"@ || ext == "gif"@ || ext == "webp"@
        || ext == "bmp"@ || ext == "tiff"@ || ext == "tif"@ || ext == "heic"@ || ext == "avif"@ {
        Some("🖼️"@)
    } else if ext == "svg"@ {
        Some("🎨"@)
    } else if ext == "ico"@ || ext == "icns"@ {
        Some("🪟"@)
    } else if ext == "psd"@ || ext == "ai"@ || ext == "sketch"@ || ext == "fig"@ {
        Some("🎨"@)
    } else if ext == "mp4"@ || ext == "mov"@ || ext == "m4v"@ || ext == "mkv"@ || ext == "webm"@
        || ext == "avi"@ || ext == "wmv"@ {
        Some("🎬"@)
    } else if ext == "mp3"@ || ext == "m4a"@ || ext == "wav"@ || ext == "aiff"@
        || ext == "flac"@ || ext == "ogg"@ {
        Some("🎵"@)
    } else if ext == "zip"@ || ext == "tar"@ || ext == "gz"@ || ext == "bz2"@ || ext == "xz"@
        || ext == "7z"@ || ext == "rar"@ {
        Some("📦"@)
    } else if ext == "dmg"@ || ext == "iso"@ || ext == "img"@ {
        Some("💿"@)
    } else if ext == "app"@ || ext == "exe"@ || ext == "msi"@ || ext == "appimage"@ {
        Some("🚀"@)
    } else if ext == "deb"@ || ext == "rpm"@ || ext == "pkg"@ {
        Some("📦"@)
    } else {
        None
    }
}

/// [`dir_icon`].
fn dir_icon_of(name: &[char]) -> (r: &'static str)
    ensures
        r@ == dir_icon(name@),
{
    if is_lit(name, ".git") {
        "🌳"
    } else if is_lit(name, ".github") {
        "🐙"
    } else if is_lit(name, "node_modules") {
        "📦"
    } else if is_lit(name, "target") || is_lit(name, "build") || is_lit(name, "dist")
        || is_lit(name, "out") {
        "🛠️"
    } else if is_lit(name, "src") || is_lit(name, "lib") {
        "📂"
    } else if is_lit(name, "assets") || is_lit(name, "static") || is_lit(name, "public")
        || is_lit(name, "images") || is_lit(name, "img") {
        "🖼️"
    } else if is_lit(name, "docs") || is_lit(name, "doc") {
        "📚"
    } else if is_lit(name, "tests") || is_lit(name, "test") || is_lit(name, "__tests__") {
        "🧪"
    } else if is_lit(name, "scripts") {
        "📜"
    } else if is_lit(name, "Desktop") {
        "🖥️"
    } else if is_lit(name, "Downloads") {
        "⬇️"
    } else if is_lit(name, "Documents") {
        "📑"
    } else if is_lit(name, "Applications") {
        "🚀"
    } else if is_lit(name, "Pictures") {
        "🖼️"
    } else if is_lit(name, "Movies") {
        "🎬"
    } else if is_lit(name, "Music") {
        "🎵"
    } else {
        "📁"
    }
}

/// [`code_icon`].
fn code_icon_of(ext: &[char]) -> (r: Option<&'static str>)
    ensures
        r matches Some(s) ==> code_icon(ext@) == Some(s@),
        r is None ==> code_icon(ext@) is None,
{
    if is_lit(ext, "rs") {
        Some("🦀")
    } else if is_lit(ext, "py") {
        Some("🐍")
    } else if is_lit(ext, "go") {
        Some("🐹")
    } else if is_lit(ext, "rb") {
        Some("💎")
    } else if is_lit(ext, "swift") {
        Some("🦅")
    } else if is_lit(ext, "ts") || is_lit(ext, "tsx") {
        Some("🟦")
    } else if is_lit(ext, "js") || is_lit(ext, "jsx") || is_lit(ext, "mjs") || is_lit(ext, "cjs") {
        Some("🟨")
    } else if is_lit(ext, "html") || is_lit(ext, "htm") {
        Some("🌐")
    } else if is_lit(ext, "css") || is_lit(ext, "scss") || is_lit(ext, "sass")
        || is_lit(ext, "less") {
        Some("🎨")
    } else if is_lit(ext, "java") || is_lit(ext, "kt") || is_lit(ext, "scala") {
        Some("☕")
    } else if is_lit(ext, "c") || is_lit(ext, "h") || is_lit(ext, "cpp") || is_lit(ext, "hpp")
        || is_lit(ext, "cc") || is_lit(ext, "cxx") {
        Some("🔧")
    } else if is_lit(ext, "lua") {
        Some("🌙")
    } else if is_lit(ext, "vim") {
        Some("📝")
    } else if is_lit(ext, "el") {
        Some("🧠")
    } else if is_lit(ext, "sh") || is_lit(ext, "zsh") || is_lit(ext, "bash")
        || is_lit(ext, "fish") {
        Some("🐚")
    } else {
        None
    }
}

/// [`document_icon`].
fn document_icon_of(ext: &[char]) -> (r: Option<&'static str>)
    ensures
        r matches Some(s) ==> document_icon(ext@) == Some(s@),
        r is None ==> document_icon(ext@) is None,
{
    if is_lit(ext, "toml") || is_lit(ext, "ini") || is_lit(ext, "cfg") || is_lit(ext, "conf") {
        Some("⚙️")
    } else if is_lit(ext, "yaml") || is_lit(ext, "yml") {
        Some("📋")
    } else if is_lit(ext, "json") || is_lit(ext, "json5") || is_lit(ext, "jsonc") {
        Some("🧾")
    } else if is_lit(ext, "xml") {
        Some("📰")
    } else if is_lit(ext, "csv") || is_lit(ext, "tsv") {
        Some("📊")
    } else if is_lit(ext, "sql") {
        Some("🗄️")
    } else if is_lit(ext, "env") {
        Some("🔐")
    } else if is_lit(ext, "lock") {
        Some("🔒")
    } else if is_lit(ext, "gitignore") || is_lit(ext, "gitattributes") {
        Some("🌳")
    } else if is_lit(ext, "md") || is_lit(ext, "mdx") || is_lit(ext, "rst") {
        Some("📝")
    } else if is_lit(ext, "txt") || is_lit(ext, "log") {
        Some("📃")
    } else if is_lit(ext, "pdf") {
        Some("📕")
    } else if is_lit(ext, "docx") || is_lit(ext, "doc") || is_lit(ext, "pages") {
        Some("📄")
    } else if is_lit(ext, "xlsx") || is_lit(ext, "xls") || is_lit(ext, "numbers") {
        Some("📊")
    } else if is_lit(ext, "pptx") || is_lit(ext, "ppt") || is_lit(ext, "key") {
        Some("📽️")
    } else {
        None
    }
}

/// [`media_icon`].
fn media_icon_of(ext: &[char]) -> (r: Option<&'static str>)
    ensures
        r matches Some(s) ==> media_icon(ext@) == Some(s@),
        r is None ==> media_icon(ext@) is None,
{
    if is_lit(ext, "png") || is_lit(ext, "jpg") || is_lit(ext, "jpeg") || is_lit(ext, "gif")
        || is_lit(ext, "webp") || is_lit(ext, "bmp") || is_lit(ext, "tiff")
        || is_lit(ext, "tif") || is_lit(ext, "heic") || is_lit(ext, "avif") {
        Some("🖼️")
    } else if is_lit(ext, "svg") {
        Some("🎨")
    } else if is_lit(ext, "ico") || is_lit(ext, "icns") {
        Some("🪟")
    } else if is_lit(ext, "psd") || is_lit(ext, "ai") || is_lit(ext, "sketch")
        || is_lit(ext, "fig") {
        Some("🎨")
    } else if is_lit(ext, "mp4") || is_lit(ext, "mov") || is_lit(ext, "m4v")
        || is_lit(ext, "mkv") || is_lit(ext, "webm") || is_lit(ext, "avi") || is_lit(ext, "wmv") {
        Some("🎬")
    } else if is_lit(ext, "mp3") || is_lit(ext, "m4a") || is_lit(ext, "wav")
        || is_lit(ext, "aiff") || is_lit(ext, "flac") || is_lit(ext, "ogg") {
        Some("🎵")
    } else if is_lit(ext, "zip") || is_lit(ext, "tar") || is_lit(ext, "gz")
        || is_lit(ext, "bz2") || is_lit(ext, "xz") || is_lit(ext, "7z") || is_lit(ext, "rar") {
        Some("📦")
    } else if is_lit(ext, "dmg") || is_lit(ext, "iso") || is_lit(ext, "img") {
        Some("💿")
    } else if is_lit(ext, "app") || is_lit(ext, "exe") || is_lit(ext, "msi")
        || is_lit(ext, "appimage") {
        Some("🚀")
    } else if is_lit(ext, "deb") || is_lit(ext, "rpm") || is_lit(ext, "pkg") {
        Some("📦")
    } else {
        None
    }
}

/// Extensions shown as images, in the preview and as a row's icon.
pub open spec fn is_image_ext(ext: Seq<char>) -> bool {
    ext == "png"@ || ext == "jpg"@ || ext == "jpeg"@ || ext == "gif"@ || ext == "webp"@
        || ext == "bmp"@ || ext == "ico"@ || ext == "tif"@ || ext == "tiff"@ || ext == "svg"@
        || ext == "avif"@ || ext == "heic"@ || ext == "tga"@ || ext == "dds"@ || ext == "hdr"@
        || ext == "exr"@ || ext == "qoi"@
}

/// Whether the extension is one of [`is_image_ext`].
pub fn is_image(ext: &str) -> (r: bool)
    ensures
        r == is_image_ext(ext@),
{
    let chars = chars_of(ext);
    let v = chars.as_slice();
    is_lit(v, "png") || is_lit(v, "jpg") || is_lit(v, "jpeg") || is_lit(v, "gif")
        || is_lit(v, "webp") || is_lit(v, "bmp") || is_lit(v, "ico") || is_lit(v, "tif")
        || is_lit(v, "tiff") || is_lit(v, "svg") || is_lit(v, "avif") || is_lit(v, "heic")
        || is_lit(v, "tga") || is_lit(v, "dds") || is_lit(v, "hdr") || is_lit(v, "exr")
        || is_lit(v, "qoi")
}

/// Extensions Quick Look can render a thumbnail of.
pub open spec fn is_quicklookable_ext(ext: Seq<char>) -> bool {
    ext == "pdf"@ || ext == "mp4"@ || ext == "mov"@ || ext == "m4v"@ || ext == "mkv"@
        || ext == "webm"@ || ext == "mp3"@ || ext == "m4a"@ || ext == "wav"@ || ext == "aiff"@
        || ext == "docx"@ || ext == "doc"@ || ext == "xlsx"@ || ext == "xls"@ || ext == "pptx"@
        || ext == "ppt"@ || ext == "key"@ || ext == "numbers"@ || ext == "pages"@
        || ext == "heic"@ || ext == "psd"@
}

/// Whether the extension is one of [`is_quicklookable_ext`].
pub fn is_quicklookable(ext: &str) -> (r: bool)
    ensures
        r == is_quicklookable_ext(ext@),
{
    let chars = chars_of(ext);
    let v = chars.as_slice();
    is_lit(v, "pdf") || is_lit(v, "mp4") || is_lit(v, "mov") || is_lit(v, "m4v")
        || is_lit(v, "mkv") || is_lit(v, "webm") || is_lit(v, "mp3") || is_lit(v, "m4a")
        || is_lit(v, "wav") || is_lit(v, "aiff") || is_lit(v, "docx") || is_lit(v, "doc")
        || is_lit(v, "xlsx") || is_lit(v, "xls") || is_lit(v, "pptx") || is_lit(v, "ppt")
        || is_lit(v, "key") || is_lit(v, "numbers") || is_lit(v, "pages") || is_lit(v, "heic")
        || is_lit(v, "psd")
}

/// Extensions (and lower-cased names) previewed as text.
pub open spec fn is_textual_ext(ext: Seq<char>) -> bool {
    ext == "rs"@ || ext == "toml"@ || ext == "lock"@ || ext == "md"@ || ext == "txt"@
        || ext == "json"@ || ext == "yaml"@ || ext == "yml"@ || ext == "js"@ || ext == "ts"@
        || ext == "tsx"@ || ext == "jsx"@ || ext == "py"@ || ext == "go"@ || ext == "java"@
        || ext == "c"@ || ext == "h"@ || ext == "cpp"@ || ext == "hpp"@ || ext == "css"@
        || ext == "html"@ || ext == "xml"@ || ext == "sh"@ || ext == "bash"@ || ext == "zsh"@
        || ext == "fish"@ || ext == "ini"@ || ext == "cfg"@ || ext == "conf"@ || ext == "log"@
        || ext == "csv"@ || ext == "sql"@ || ext == "rb"@ || ext == "swift"@ || ext == "kt"@
        || ext == "scala"@ || ext == "lua"@ || ext == "vim"@ || ext == "el"@ || ext == ""@
        || ext == "gitignore"@ || ext == "gitattributes"@ || ext == "env"@
        || ext == "dockerfile"@ || ext == "makefile"@
}

/// Whether the extension is one of [`is_textual_ext`].
pub fn is_textual(ext: &str) -> (r: bool)
    ensures
        r == is_textual_ext(ext@),
{
    let chars = chars_of(ext);
    let v = chars.as_slice();
    is_lit(v, "rs") || is_lit(v, "toml") || is_lit(v, "lock") || is_lit(v, "md")
        || is_lit(v, "txt") || is_lit(v, "json") || is_lit(v, "yaml") || is_lit(v, "yml")
        || is_lit(v, "js") || is_lit(v, "ts") || is_lit(v, "tsx") || is_lit(v, "jsx")
        || is_lit(v, "py") || is_lit(v, "go") || is_lit(v, "java") || is_lit(v, "c")
        || is_lit(v, "h") || is_lit(v, "cpp") || is_lit(v, "hpp") || is_lit(v, "css")
        || is_lit(v, "html") || is_lit(v, "xml") || is_lit(v, "sh") || is_lit(v, "bash")
        || is_lit(v, "zsh") || is_lit(v, "fish") || is_lit(v, "ini") || is_lit(v, "cfg")
        || is_lit(v, "conf") || is_lit(v, "log") || is_lit(v, "csv") || is_lit(v, "sql")
        || is_lit(v, "rb") || is_lit(v, "swift") || is_lit(v, "kt") || is_lit(v, "scala")
        || is_lit(v, "lua") || is_lit(v, "vim") || is_lit(v, "el") || is_lit(v, "")
        || is_lit(v, "gitignore") || is_lit(v, "gitattributes") || is_lit(v, "env")
        || is_lit(v, "dockerfile") || is_lit(v, "makefile")
}

/// Seconds in a day.
pub const DAY_SECS: u64 = 86400;

/// The age shown for a time stamp: `now.saturating_sub(secs)` read as an
/// `i64`, so a difference past `i64::MAX` wraps to a negative number.
pub open spec fn age_secs(secs: u64, now: u64) -> int {
    let d: int = if now >= secs {
        now - secs
    } else {
        0
    };
    if d <= i64::MAX {
        d
    } else {
        d - 0x1_0000_0000_0000_0000
    }
}

/// Decimal notation of an integer, with `-` before a negative one.
pub open spec fn signed_decimal(n: int) -> Seq<char> {
    if n < 0 {
        seq!['-'] + decimal((-n) as nat)
    } else {
        decimal(n as nat)
    }
}

/// How long ago `secs` was at `now`, in the largest unit that fits:
/// seconds, minutes, hours, days, or months of thirty days.
pub open spec fn ago_text(secs: u64, now: u64) -> Seq<char> {
    let d = age_secs(secs, now);
    if d < 60 {
        signed_decimal(d) + "s ago"@
    } else if d < 3600 {
        decimal((d / 60) as nat) + "m ago"@
    } else if d < DAY_SECS {
        decimal((d / 3600) as nat) + "h ago"@
    } else if d < DAY_SECS * 30 {
        decimal((d / DAY_SECS as int) as nat) + "d ago"@
    } else {
        decimal((d / (DAY_SECS * 30) as int) as nat) + "mo ago"@
    }
}

/// How long ago `secs` (seconds since the Unix epoch) was at `now` (see
/// [`ago_text`]).
pub fn format_time_at(secs: u64, now: u64) -> (r: String)
    ensures
        r@ == ago_text(secs, now),
{
    let d: u64 = if now >= secs {
        now - secs
    } else {
        0
    };
    let mut s = String::new();
    if d > 0x7fff_ffff_ffff_ffff {
        let magnitude: u64 = u64::MAX - d + 1;
        push_char(&mut s, '-');
        push_decimal(&mut s, magnitude);
        push_str(&mut s, "s ago");
        assert(s@ =~= signed_decimal(age_secs(secs, now)) + "s ago"@);
    } else if d < 60 {
        push_decimal(&mut s, d);
        push_str(&mut s, "s ago");
        assert(s@ =~= signed_decimal(age_secs(secs, now)) + "s ago"@);
    } else if d < 3600 {
        push_decimal(&mut s, d / 60);
        push_str(&mut s, "m ago");
        assert(s@ =~= ago_text(secs, now));
    } else if d < DAY_SECS {
        push_decimal(&mut s, d / 3600);
        push_str(&mut s, "h ago");
        assert(s@ =~= ago_text(secs, now));
    } else if d < DAY_SECS * 30 {
        push_decimal(&mut s, d / DAY_SECS);
        push_str(&mut s, "d ago");
        assert(s@ =~= ago_text(secs, now));
    } else {
        push_decimal(&mut s, d / (DAY_SECS * 30));
        push_str(&mut s, "mo ago");
        assert(s@ =~= ago_text(secs, now));
    }
    s
}

/// Seconds since the Unix epoch by the system clock (`SystemTime::now`),
/// 0 when the clock reads earlier than the epoch. It depends on the clock,
/// so nothing is claimed of it.
#[verifier::external_body]
fn unix_now() -> (r: u64) {
    match std::time::SystemTime::now().duration_since(std::time::UNIX_EPOCH) {
        Ok(d) => d.as_secs(),
        Err(_) => 0,
    }
}

/// How long ago `secs` was, by the system clock: [`ago_text`] at the time
/// the clock read.
pub fn format_time(secs: u64) -> (r: String)
    ensures
        exists|now: u64| r@ == #[trigger] ago_text(secs, now),
{
    let now = unix_now();
    format_time_at(secs, now)
}

} // verus!
