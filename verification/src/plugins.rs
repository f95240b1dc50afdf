//! The manifest of installed routing-pattern plugins: entries, the stored
//! file name of a plugin, and the updates a save or removal makes.
use vstd::prelude::*;
use crate::text::push_str;
use vstd::string::StrSliceExecFns;

verus! {

/// A persistently installed routing-pattern generator.
pub struct InstalledPlugin {
    /// Registry id (also the stored file name stem).
    pub id: String,
    /// `native` (shared library) or `python` (runner).
    pub kind: String,
    /// File name inside the plugins data directory.
    pub file: String,
    pub display_name: String,
    pub author: String,
    pub version: String,
    pub description: String,
}

/// Metadata a plugin reports when it is registered.
pub struct PluginMetadata {
    pub display_name: String,
    pub author: String,
    pub version: String,
    pub description: String,
}

/// The operating system a native plugin is built for.
#[derive(Debug, Clone, Copy, PartialEq, Eq, Structural)]
pub enum Platform {
    MacOs,
    Windows,
    Other,
}

pub open spec fn is_ascii_alnum(c: char) -> bool {
    ('0' <= c && c <= '9') || ('A' <= c && c <= 'Z') || ('a' <= c && c <= 'z')
}

/// An ASCII letter in lower case; other characters unchanged.
pub open spec fn ascii_lower(c: char) -> char {
    if 'A' <= c && c <= 'Z' {
        ((c as u32) + 32) as char
    } else {
        c
    }
}

/// A safe file name stem: ASCII letters and digits kept (letters in lower
/// case), every other character replaced by `_`.
pub open spec fn slug_of(id: Seq<char>) -> Seq<char> {
    id.map_values(|c: char| if is_ascii_alnum(c) { ascii_lower(c) } else { '_' })
}

/// File extension of a stored plugin.
pub open spec fn extension_of(kind: Seq<char>, platform: Platform) -> Seq<char> {
    if kind == "python"@ {
        "py"@
    } else if kind == "native"@ {
        match platform {
            Platform::MacOs => "dylib"@,
            Platform::Windows => "dll"@,
            Platform::Other => "so"@,
        }
    } else {
        "bin"@
    }
}

fn slug_char(c: char) -> (r: char)
    ensures
        r == (if is_ascii_alnum(c) { ascii_lower(c) } else { '_' }),
{
    if ('0' <= c && c <= '9') || ('a' <= c && c <= 'z') {
        c
    } else if 'A' <= c && c <= 'Z' {
        let code: u8 = (c as u8) + 32;
        code as char
    } else {
        '_'
    }
}

/// Sanitise a plugin id into a safe lowercase file name stem.
pub fn slug(id: &str) -> (r: String)
    ensures
        r@ == slug_of(id@),
{
    let mut r = String::new();
    let n = id.unicode_len();
    let mut i: usize = 0;
    while i < n
        invariant
            n == id@.len(),
            i <= n,
            r@ =~= slug_of(id@.take(i as int)),
        decreases n - i,
    {
        let c = id.get_char(i);
        r.push(slug_char(c));
        i = i + 1;
    }
    assert(id@.take(n as int) =~= id@);
    r
}

/// The file extension a plugin of `kind` is stored with on `platform`.
pub fn extension_for(kind: &str, platform: Platform) -> (r: &'static str)
    ensures
        r@ == extension_of(kind@, platform),
{
    proof {
        reveal_strlit("python");
        reveal_strlit("native");
    }
    if str_eq(kind, "python") {
        "py"
    } else if str_eq(kind, "native") {
        match platform {
            Platform::MacOs => "dylib",
            Platform::Windows => "dll",
            Platform::Other => "so",
        }
    } else {
        "bin"
    }
}

/// Whether two texts are equal.
pub fn str_eq(a: &str, b: &str) -> (r: bool)
    ensures
        r == (a@ == b@),
{
    let n = a.unicode_len();
    let m = b.unicode_len();
    if n != m {
        return false;
    }
    let mut i: usize = 0;
    while i < n
        invariant
            n == a@.len(),
            m == b@.len(),
            n == m,
            i <= n,
            a@.take(i as int) == b@.take(i as int),
        decreases n - i,
    {
        if a.get_char(i) != b.get_char(i) {
            assert(a@[i as int] != b@[i as int]);
            return false;
        }
        assert(a@.take(i + 1) =~= a@.take(i as int).push(a@[i as int]));
        assert(b@.take(i + 1) =~= b@.take(i as int).push(b@[i as int]));
        i = i + 1;
    }
    assert(a@.take(n as int) =~= a@);
    assert(b@.take(n as int) =~= b@);
    true
}

/// The stored file name of a plugin: `<slug>.<extension>`.
pub fn plugin_file_name(id: &str, kind: &str, platform: Platform) -> (r: String)
    ensures
        r@ == slug_of(id@) + seq!['.'] + extension_of(kind@, platform),
{
    let mut r = slug(id);
    r.push('.');
    push_str(&mut r, extension_for(kind, platform));
    r
}

impl InstalledPlugin {
    /// The manifest entry of a just-registered plugin stored as `file`; its
    /// display name falls back to the id when the plugin reports none.
    pub fn from_metadata(id: &str, kind: &str, file: String, meta: &PluginMetadata) -> (p: Self)
        ensures
            p.id@ == id@,
            p.kind@ == kind@,
            p.file == file,
            p.display_name@ == (if meta.display_name@.len() == 0 { id@ } else { meta.display_name@ }),
            p.author == meta.author,
            p.version == meta.version,
            p.description == meta.description,
    {
        let mut pid = String::new();
        push_str(&mut pid, id);
        let mut pkind = String::new();
        push_str(&mut pkind, kind);
        let display_name = if meta.display_name.as_str().unicode_len() == 0 {
            let mut d = String::new();
            push_str(&mut d, id);
            d
        } else {
            meta.display_name.clone()
        };
        InstalledPlugin {
            id: pid,
            kind: pkind,
            file,
            display_name,
            author: meta.author.clone(),
            version: meta.version.clone(),
            description: meta.description.clone(),
        }
    }
}

/// The ids of a manifest.
pub open spec fn plugin_ids(ps: Seq<InstalledPlugin>) -> Seq<Seq<char>> {
    ps.map_values(|p: InstalledPlugin| p.id@)
}

/// The entries whose id differs from `id`, in order.
pub open spec fn without_id(ps: Seq<InstalledPlugin>, id: Seq<char>) -> Seq<InstalledPlugin>
    decreases ps.len(),
{
    if ps.len() == 0 {
        seq![]
    } else if ps.last().id@ == id {
        without_id(ps.drop_last(), id)
    } else {
        without_id(ps.drop_last(), id).push(ps.last())
    }
}

/// Add or replace `plugin` in a manifest: every entry with its id is
/// removed and the plugin appended.
pub fn upsert_plugin(all: Vec<InstalledPlugin>, plugin: InstalledPlugin) -> (r: Vec<InstalledPlugin>)
    ensures
        r@ == without_id(all@, plugin.id@).push(plugin),
{
    let mut kept: Vec<InstalledPlugin> = Vec::new();
    let mut rest = all;
    let ghost whole = rest@;
    // Move the entries out back to front, then restore their order.
    let mut reversed: Vec<InstalledPlugin> = Vec::new();
    while rest.len() > 0
        invariant
            rest@ == whole.take(rest@.len() as int),
            rest@.len() <= whole.len(),
            reversed@.len() + rest@.len() == whole.len(),
            forall|k: int| 0 <= k < reversed@.len() ==> #[trigger] reversed@[k] == whole[whole.len() - 1 - k],
        decreases rest.len(),
    {
        let p = rest.pop().unwrap();
        reversed.push(p);
    }
    while reversed.len() > 0
        invariant
            reversed@.len() <= whole.len(),
            forall|k: int| 0 <= k < reversed@.len() ==> #[trigger] reversed@[k] == whole[whole.len() - 1 - k],
            kept@ == without_id(whole.take(whole.len() - reversed@.len()), plugin.id@),
        decreases reversed.len(),
    {
        let ghost done = whole.take(whole.len() - reversed@.len());
        let p = reversed.pop().unwrap();
        let ghost next = whole.take(whole.len() - reversed@.len());
        proof {
            assert(next.drop_last() =~= done);
            assert(next.last() == p);
        }
        if !str_eq(p.id.as_str(), plugin.id.as_str()) {
            kept.push(p);
        }
    }
    assert(whole.take(whole.len() as int) =~= whole);
    kept.push(plugin);
    kept
}

/// Remove the first entry with id `id` from a manifest, returning the
/// remaining entries and the removed one.
pub fn remove_plugin_entry(all: Vec<InstalledPlugin>, id: &str) -> (r: (Vec<InstalledPlugin>, Option<InstalledPlugin>))
    ensures
        match r.1 {
            Some(p) => exists|k: int|
                #![trigger all@[k]]
                0 <= k < all@.len() && all@[k] == p && p.id@ == id@ && (forall|j: int| 0 <= j < k ==> all@[j].id@ != id@)
                    && r.0@ == all@.remove(k),
            None => (forall|j: int| 0 <= j < all@.len() ==> all@[j].id@ != id@) && r.0@ == all@,
        },
{
    let mut rest = all;
    let ghost whole = rest@;
    let mut k: usize = 0;
    while k < rest.len()
        invariant
            rest@ == whole,
            whole == all@,
            k <= rest@.len(),
            forall|j: int| 0 <= j < k ==> whole[j].id@ != id@,
        decreases rest.len() - k,
    {
        if str_eq(rest[k].id.as_str(), id) {
            let p = rest.remove(k);
            let ghost kk = k as int;
            assert(all@[kk] == p);
            assert(rest@ == all@.remove(kk));
            return (rest, Some(p));
        }
        k = k + 1;
    }
    (rest, None)
}

/// A character with the Unicode `White_Space` property, the whitespace that
/// `str::trim` removes.
pub open spec fn is_white_space(c: char) -> bool {
    ||| ('\t' <= c && c <= '\r')
    ||| c == ' '
    ||| c == '\u{85}'
    ||| c == '\u{a0}'
    ||| c == '\u{1680}'
    ||| ('\u{2000}' <= c && c <= '\u{200a}')
    ||| c == '\u{2028}'
    ||| c == '\u{2029}'
    ||| c == '\u{202f}'
    ||| c == '\u{205f}'
    ||| c == '\u{3000}'
}

fn white_space(c: char) -> (r: bool)
    ensures
        r == is_white_space(c),
{
    ('\t' <= c && c <= '\r') || c == ' ' || c == '\u{85}' || c == '\u{a0}' || c == '\u{1680}' || ('\u{2000}'
        <= c && c <= '\u{200a}') || c == '\u{2028}' || c == '\u{2029}' || c == '\u{202f}' || c == '\u{205f}'
        || c == '\u{3000}'
}

/// `s` without its leading whitespace.
pub open spec fn trim_start(s: Seq<char>) -> Seq<char>
    decreases s.len(),
{
    if s.len() > 0 && is_white_space(s[0]) {
        trim_start(s.drop_first())
    } else {
        s
    }
}

/// `s` without its trailing whitespace.
pub open spec fn trim_end(s: Seq<char>) -> Seq<char>
    decreases s.len(),
{
    if s.len() > 0 && is_white_space(s.last()) {
        trim_end(s.drop_last())
    } else {
        s
    }
}

/// `s` without leading or trailing whitespace.
pub open spec fn trimmed(s: Seq<char>) -> Seq<char> {
    trim_end(trim_start(s))
}

/// The routing pattern used when none is chosen.
pub open spec fn default_pattern_id() -> Seq<char> {
    "infinity-braid"@
}

/// `s` without leading or trailing whitespace.
pub fn trim(s: &str) -> (r: String)
    ensures
        r@ == trimmed(s@),
{
    let n = s.unicode_len();
    let mut i: usize = 0;
    assert(s@.skip(0) =~= s@);
    while i < n && white_space(s.get_char(i))
        invariant
            n == s@.len(),
            i <= n,
            trim_start(s@) == trim_start(s@.skip(i as int)),
        decreases n - i,
    {
        assert(s@.skip(i as int).drop_first() =~= s@.skip(i + 1));
        i = i + 1;
    }
    if i == n {
        assert(s@.skip(i as int) =~= Seq::<char>::empty());
    }
    let ghost t = s@.skip(i as int);
    assert(trim_start(s@) == t);
    let mut j: usize = n;
    while j > i && white_space(s.get_char(j - 1))
        invariant
            n == s@.len(),
            i <= j <= n,
            t == s@.skip(i as int),
            trim_end(t) == trim_end(s@.subrange(i as int, j as int)),
        decreases j - i,
    {
        assert(s@.subrange(i as int, j as int).drop_last() =~= s@.subrange(i as int, j - 1));
        j = j - 1;
    }
    assert(s@.subrange(i as int, n as int) =~= t);
    let mut r = String::new();
    push_str(&mut r, s.substring_char(i, j));
    r
}

/// The routing pattern a config names: its trimmed id, or
/// `infinity-braid` when that is blank.
pub fn routing_pattern_id(routing_pattern: &str) -> (r: String)
    ensures
        r@ == (if trimmed(routing_pattern@).len() == 0 { default_pattern_id() } else { trimmed(routing_pattern@) }),
{
    let t = trim(routing_pattern);
    if t.as_str().unicode_len() == 0 {
        let mut r = String::new();
        push_str(&mut r, "infinity-braid");
        r
    } else {
        t
    }
}

} // verus!
