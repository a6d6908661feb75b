//! Asset-path resolution: shortcodes of the form `root::rest` resolve to a
//! category directory under that root, and anything else is taken verbatim.

use vstd::prelude::*;
use vstd::string::StrSliceExecFns;
use vstd::string::StringExecFns;

verus! {

/// The position of the first `::` at or after `from`; the sequence length
/// serves as the "not found" sentinel.
pub open spec fn first_dcolon_from(s: Seq<char>, from: int) -> int
    decreases s.len() - from,
{
    if from + 2 > s.len() {
        s.len() as int
    } else if s[from] == ':' && s[from + 1] == ':' {
        from
    } else {
        first_dcolon_from(s, from + 1)
    }
}

/// The position of the first `::`, or the sequence length when there is none.
pub open spec fn first_dcolon(s: Seq<char>) -> int {
    first_dcolon_from(s, 0)
}

/// Whether the shortcode contains the `::` separator at all.
pub open spec fn has_dcolon(s: Seq<char>) -> bool {
    first_dcolon(s) + 2 <= s.len()
}

/// Joining one more segment onto a path, as the platform path buffer does on
/// Unix: an absolute segment replaces the whole path, joining onto the empty
/// path keeps the segment alone, and otherwise a single separator goes in
/// between unless one is already there.
pub open spec fn join_path(a: Seq<char>, b: Seq<char>) -> Seq<char> {
    if b.len() > 0 && b[0] == '/' {
        b
    } else if a.len() == 0 {
        b
    } else if a[a.len() - 1] == '/' {
        a + b
    } else {
        a + seq!['/'] + b
    }
}

/// The relative path a shortcode resolves to under a category directory:
/// `root::rest` becomes `root/<infix>/rest`, with the core directory
/// standing in when the root part is empty; a shortcode without the
/// separator is already the path.
pub open spec fn resolved_path(short: Seq<char>, infix: Seq<char>) -> Seq<char> {
    if has_dcolon(short) {
        let f = first_dcolon(short);
        let root = if f == 0 {
            "core"@
        } else {
            short.take(f)
        };
        join_path(join_path(root, infix), short.skip(f + 2))
    } else {
        short
    }
}

/// Finds the first `::` in a shortcode; the string's character length means
/// "none".
fn find_dcolon(s: &str) -> (r: usize)
    ensures
        r as int == first_dcolon(s@),
{
    let n = s.unicode_len();
    let mut i: usize = 0;
    while i < n && i + 1 < n
        invariant
            n == s@.len(),
            0 <= i <= n,
            first_dcolon(s@) == first_dcolon_from(s@, i as int),
        decreases n - i,
    {
        if s.get_char(i) == ':' && s.get_char(i + 1) == ':' {
            return i;
        }
        i = i + 1;
    }
    n
}

/// Joins one more segment onto a path.
fn join_segment(a: String, b: &str) -> (r: String)
    ensures
        r@ == join_path(a@, b@),
{
    let bn = b.unicode_len();
    if bn > 0 && b.get_char(0) == '/' {
        String::from_str(b)
    } else {
        let an = a.unicode_len();
        if an == 0 {
            String::from_str(b)
        } else if a.get_char(an - 1) == '/' {
            a.concat(b)
        } else {
            let ghost a0 = a@;
            let mut r = a;
            r.append("/");
            proof {
                reveal_strlit("/");
                assert(r@ =~= a0 + seq!['/']);
            }
            let r2 = r.concat(b);
            proof {
                assert(r2@ =~= a0 + seq!['/'] + b@);
            }
            r2
        }
    }
}

/// Resolves a shortcode against a category directory, giving the relative
/// location the asset loader is handed.
pub fn parse_path(shortcode: &str, infix_path: &str) -> (r: String)
    ensures
        r@ == resolved_path(shortcode@, infix_path@),
{
    let n = shortcode.unicode_len();
    let f = find_dcolon(shortcode);
    if f < n && f + 1 < n {
        let root: String = if f == 0 {
            String::from_str("core")
        } else {
            String::from_str(shortcode.substring_char(0, f))
        };
        let rest = shortcode.substring_char(f + 2, n);
        proof {
            if f > 0 {
                assert(shortcode@.subrange(0, f as int) =~= shortcode@.take(f as int));
            }
            assert(shortcode@.subrange(f + 2, n as int) =~= shortcode@.skip(f + 2));
        }
        join_segment(join_segment(root, infix_path), rest)
    } else {
        String::from_str(shortcode)
    }
}

/// Mathematical shape of a [`GameAssetPath`].
#[verifier::ext_equal]
pub struct AssetPathView {
    pub short: Seq<char>,
    pub full: Seq<char>,
    pub present: bool,
}

/// An asset location: the shortcode it was created from, the resolved path
/// relative to the assets root, and whether a probe found the file on disk.
/// The library itself does no file I/O; the embedding program performs the
/// probe and records its outcome here.
#[derive(Debug, PartialEq, Eq)]
pub struct GameAssetPath {
    short: String,
    full: String,
    present: bool,
}

impl View for GameAssetPath {
    type V = AssetPathView;

    closed spec fn view(&self) -> AssetPathView {
        AssetPathView { short: self.short@, full: self.full@, present: self.present }
    }
}

impl Clone for GameAssetPath {
    fn clone(&self) -> (r: Self)
        ensures
            r@ == self@,
    {
        GameAssetPath {
            short: self.short.clone(),
            full: self.full.clone(),
            present: self.present,
        }
    }
}

impl GameAssetPath {
    /// An asset location resolved against a category directory; no probe has
    /// run yet.
    fn new(shortcode: &str, infix_path: &str) -> (r: GameAssetPath)
        ensures
            r@ == (AssetPathView {
                short: shortcode@,
                full: resolved_path(shortcode@, infix_path@),
                present: false,
            }),
    {
        GameAssetPath {
            short: String::from_str(shortcode),
            full: parse_path(shortcode, infix_path),
            present: false,
        }
    }

    /// An asset location under the data-file directory.
    pub fn new_data(shortcode: &str) -> (r: GameAssetPath)
        ensures
            r@ == (AssetPathView {
                short: shortcode@,
                full: resolved_path(shortcode@, "data"@),
                present: false,
            }),
    {
        Self::new(shortcode, "data")
    }

    /// An asset location under the model directory.
    pub fn new_model(shortcode: &str) -> (r: GameAssetPath)
        ensures
            r@ == (AssetPathView {
                short: shortcode@,
                full: resolved_path(shortcode@, "models"@),
                present: false,
            }),
    {
        Self::new(shortcode, "models")
    }

    /// An asset location under the texture directory.
    pub fn new_texture(shortcode: &str) -> (r: GameAssetPath)
        ensures
            r@ == (AssetPathView {
                short: shortcode@,
                full: resolved_path(shortcode@, "textures"@),
                present: false,
            }),
    {
        Self::new(shortcode, "textures")
    }

    /// An asset location under the sound-effect directory.
    pub fn new_sfx(shortcode: &str) -> (r: GameAssetPath)
        ensures
            r@ == (AssetPathView {
                short: shortcode@,
                full: resolved_path(shortcode@, "sfx"@),
                present: false,
            }),
    {
        Self::new(shortcode, "sfx")
    }

    /// The same location with the outcome of a file probe recorded.
    pub fn probed(self, present: bool) -> (r: GameAssetPath)
        ensures
            r@ == (AssetPathView { short: self@.short, full: self@.full, present }),
    {
        GameAssetPath { short: self.short, full: self.full, present }
    }

    /// The path relative to the execution directory, which is expected to
    /// contain the executable and the assets directory.
    pub fn path_relative(&self) -> (r: String)
        ensures
            r@ == join_path("assets"@, self@.full),
    {
        join_segment(String::from_str("assets"), self.full.as_str())
    }

    /// Whether the recorded probe found the asset file.
    pub fn file_exists(&self) -> (r: bool)
        ensures
            r == self@.present,
    {
        self.present
    }

    /// The display form `[shortcode](resolved path)`.
    pub fn display_string(&self) -> (r: String)
        ensures
            r@ == "["@ + self@.short + "]("@ + self@.full + ")"@,
    {
        let mut r = String::from_str("[");
        r.append(self.short.as_str());
        r.append("](");
        r.append(self.full.as_str());
        r.append(")");
        r
    }
}

} // verus!
