//! Configuration model: general options, item sources, launch groups and
//! the theme, with their documented defaults, and theme color parsing.
//!
//! Loading a configuration file from disk is the surrounding session's
//! job; the core only consumes the resulting plain values.

use vstd::prelude::*;

verus! {

/// General options.
pub struct GeneralConfig {
    /// Upper bound on persisted history entries.
    pub history_size: usize,
    /// Command line of the terminal emulator used for terminal items.
    pub terminal: Option<String>,
}

/// Which item sources are scanned at session start.
pub struct SourceConfig {
    /// Scan executables on the search path.
    pub scan_path: bool,
    /// Scan desktop entries.
    pub scan_desktop: bool,
    /// Scan the user's script directory.
    pub scan_scripts: bool,
}

/// A statically configured item of a launch group.
pub struct StaticEntry {
    /// Display name.
    pub name: String,
    /// Command line to run.
    pub command: String,
    /// Optional icon reference.
    pub icon: Option<String>,
    /// Whether to run inside a terminal.
    pub terminal: bool,
}

/// A named policy bundle: active sources, optional pruning lists,
/// environment overrides and statically defined items.
pub struct LaunchGroup {
    /// Names of the item sources this group draws from.
    pub sources: Vec<String>,
    /// Environment overrides applied when executing an item.
    pub env: Option<Vec<(String, String)>>,
    /// Patterns whose matches are pruned from the view.
    pub blacklist: Option<Vec<String>>,
    /// Substrings at least one of which every kept item must contain.
    pub whitelist: Option<Vec<String>>,
    /// Items defined directly in the configuration.
    pub items: Vec<StaticEntry>,
}

/// Panel geometry and colors. Each color is an 8-hex-digit RGBA string.
pub struct ThemeConfig {
    /// Panel width in pixels.
    pub width: u32,
    /// Panel height in pixels.
    pub height: u32,
    /// Inner padding in pixels.
    pub padding: u32,
    /// Vertical spacing between the search line and the list.
    pub spacing: u32,
    /// Corner radius of the panel.
    pub border_radius: u32,
    /// Panel background color.
    pub background: String,
    /// Panel border color.
    pub border_color: String,
    /// Foreground text color.
    pub text: String,
    /// Fill color of the selection highlight.
    pub selection_background: String,
    /// Text color of the selected row.
    pub selection_text: String,
    /// Color of the ordinal labels.
    pub number_color: String,
}

/// The whole configuration handed to the core at construction.
pub struct Config {
    /// General options.
    pub general: GeneralConfig,
    /// Launch groups by name; the first binding of a name wins.
    pub groups: Vec<(String, LaunchGroup)>,
    /// Which sources to scan.
    pub sources: SourceConfig,
    /// Panel theme.
    pub theme: ThemeConfig,
}

/// Default bound on persisted history entries.
pub fn default_history_size() -> (r: usize)
    ensures
        r == 50,
{
    50
}

/// Sources are scanned unless switched off.
pub fn default_true() -> (r: bool)
    ensures
        r,
{
    true
}

/// Default panel width.
pub fn default_width() -> (r: u32)
    ensures
        r == 600,
{
    600
}

/// Default panel height.
pub fn default_height() -> (r: u32)
    ensures
        r == 400,
{
    400
}

/// Default inner padding.
pub fn default_padding() -> (r: u32)
    ensures
        r == 20,
{
    20
}

/// Default search-line spacing.
pub fn default_spacing() -> (r: u32)
    ensures
        r == 10,
{
    10
}

/// Default corner radius.
pub fn default_border_radius() -> (r: u32)
    ensures
        r == 12,
{
    12
}

/// Default background color.
pub fn default_background() -> (r: String)
    ensures
        r@ == "1e1e1eff"@,
{
    String::from_str("1e1e1eff")
}

/// Default border color.
pub fn default_border_color() -> (r: String)
    ensures
        r@ == "3c3c50ff"@,
{
    String::from_str("3c3c50ff")
}

/// Default text color.
pub fn default_text() -> (r: String)
    ensures
        r@ == "c8c8c8ff"@,
{
    String::from_str("c8c8c8ff")
}

/// Default selection highlight color.
pub fn default_selection_background() -> (r: String)
    ensures
        r@ == "3c3c50ff"@,
{
    String::from_str("3c3c50ff")
}

/// Default selected-text color.
pub fn default_selection_text() -> (r: String)
    ensures
        r@ == "ffffffff"@,
{
    String::from_str("ffffffff")
}

/// Default ordinal label color.
pub fn default_number_color() -> (r: String)
    ensures
        r@ == "646464ff"@,
{
    String::from_str("646464ff")
}

impl Default for GeneralConfig {
    /// Default history size, no terminal emulator configured.
    fn default() -> (r: GeneralConfig)
        ensures
            r.history_size == 50,
            r.terminal is None,
    {
        GeneralConfig { history_size: default_history_size(), terminal: None }
    }
}

impl Default for SourceConfig {
    /// Every source is scanned.
    fn default() -> (r: SourceConfig)
        ensures
            r.scan_path,
            r.scan_desktop,
            r.scan_scripts,
    {
        SourceConfig { scan_path: default_true(), scan_desktop: default_true(), scan_scripts: default_true() }
    }
}

impl Default for LaunchGroup {
    /// No sources, no policy, no static items.
    fn default() -> (r: LaunchGroup)
        ensures
            r.sources@.len() == 0,
            r.env is None,
            r.blacklist is None,
            r.whitelist is None,
            r.items@.len() == 0,
    {
        LaunchGroup {
            sources: Vec::new(),
            env: None,
            blacklist: None,
            whitelist: None,
            items: Vec::new(),
        }
    }
}

impl Default for ThemeConfig {
    /// The documented default geometry and palette.
    fn default() -> (r: ThemeConfig)
        ensures
            r.width == 600,
            r.height == 400,
            r.padding == 20,
            r.spacing == 10,
            r.border_radius == 12,
            r.background@ == "1e1e1eff"@,
            r.border_color@ == "3c3c50ff"@,
            r.text@ == "c8c8c8ff"@,
            r.selection_background@ == "3c3c50ff"@,
            r.selection_text@ == "ffffffff"@,
            r.number_color@ == "646464ff"@,
    {
        ThemeConfig {
            width: default_width(),
            height: default_height(),
            padding: default_padding(),
            spacing: default_spacing(),
            border_radius: default_border_radius(),
            background: default_background(),
            border_color: default_border_color(),
            text: default_text(),
            selection_background: default_selection_background(),
            selection_text: default_selection_text(),
            number_color: default_number_color(),
        }
    }
}

impl Default for Config {
    /// One launch group named `default` drawing from every source,
    /// with no pruning policy, plus the default theme and options.
    fn default() -> (r: Config)
        ensures
            r.general.history_size == 50,
            r.general.terminal is None,
            r.sources.scan_path,
            r.sources.scan_desktop,
            r.sources.scan_scripts,
            r.theme.width == 600,
            r.theme.height == 400,
            r.theme.padding == 20,
            r.theme.spacing == 10,
            r.theme.border_radius == 12,
            r.theme.background@ == "1e1e1eff"@,
            r.theme.border_color@ == "3c3c50ff"@,
            r.theme.text@ == "c8c8c8ff"@,
            r.theme.selection_background@ == "3c3c50ff"@,
            r.theme.selection_text@ == "ffffffff"@,
            r.theme.number_color@ == "646464ff"@,
            r.groups@.len() == 1,
            r.groups@[0].0@ == "default"@,
            r.groups@[0].1.sources@.len() == 3,
            r.groups@[0].1.sources@[0]@ == "desktop"@,
            r.groups@[0].1.sources@[1]@ == "bin"@,
            r.groups@[0].1.sources@[2]@ == "scripts"@,
            r.groups@[0].1.env is None,
            r.groups@[0].1.blacklist is None,
            r.groups@[0].1.whitelist is None,
            r.groups@[0].1.items@.len() == 0,
    {
        let mut sources: Vec<String> = Vec::new();
        sources.push(String::from_str("desktop"));
        sources.push(String::from_str("bin"));
        sources.push(String::from_str("scripts"));
        let group = LaunchGroup {
            sources,
            env: None,
            blacklist: None,
            whitelist: None,
            items: Vec::new(),
        };
        let mut groups: Vec<(String, LaunchGroup)> = Vec::new();
        groups.push((String::from_str("default"), group));
        Config {
            general: GeneralConfig::default(),
            groups,
            sources: SourceConfig::default(),
            theme: ThemeConfig::default(),
        }
    }
}

/// Launch group bound to `name` in `groups`: the first binding wins.
pub open spec fn find_group_in(groups: Seq<(String, LaunchGroup)>, name: Seq<char>) -> Option<
    LaunchGroup,
>
    decreases groups.len(),
{
    if groups.len() == 0 {
        None
    } else if groups[0].0@ == name {
        Some(groups[0].1)
    } else {
        find_group_in(groups.drop_first(), name)
    }
}

/// Looks up the launch group bound to `name`.
pub fn find_group<'a>(groups: &'a Vec<(String, LaunchGroup)>, name: &str) -> (r: Option<
    &'a LaunchGroup,
>)
    ensures
        match r {
            Some(g) => find_group_in(groups@, name@) == Some(*g),
            None => find_group_in(groups@, name@) is None,
        },
{
    let n = groups.len();
    let mut i: usize = 0;
    while i < n
        invariant
            n == groups@.len(),
            i <= n,
            forall|k: int| 0 <= k < i ==> groups@[k].0@ != name@,
        decreases n - i,
    {
        if crate::text::str_eq(groups[i].0.as_str(), name) {
            proof {
                lemma_find_group_step(groups@, name@, i as int);
            }
            return Some(&groups[i].1);
        }
        i += 1;
    }
    proof {
        if n > 0 {
            lemma_find_group_step(groups@, name@, n - 1);
        }
    }
    None
}

proof fn lemma_find_group_step(groups: Seq<(String, LaunchGroup)>, name: Seq<char>, i: int)
    requires
        0 <= i < groups.len(),
        forall|k: int| 0 <= k < i ==> groups[k].0@ != name,
    ensures
        groups[i].0@ == name ==> find_group_in(groups, name) == Some(groups[i].1),
        (forall|k: int| 0 <= k <= i ==> groups[k].0@ != name) && i == groups.len() - 1
            ==> find_group_in(groups, name) is None,
    decreases i,
{
    if i == 0 {
        if groups[0].0@ != name && groups.len() == 1 {
            assert(find_group_in(groups.drop_first(), name) is None);
        }
    } else {
        assert(groups.drop_first()[i - 1] == groups[i]);
        assert(forall|k: int|
            0 <= k < i - 1 ==> groups.drop_first()[k] == groups[k + 1]);
        lemma_find_group_step(groups.drop_first(), name, i - 1);
    }
}

/// An RGBA color with 8-bit channels, as parsed from a theme string.
#[derive(Debug, Clone, Copy, PartialEq, Eq, Structural)]
pub struct Rgba {
    /// Red channel.
    pub r: u8,
    /// Green channel.
    pub g: u8,
    /// Blue channel.
    pub b: u8,
    /// Alpha channel.
    pub a: u8,
}

/// Opaque black, the fallback for malformed color strings.
pub open spec fn opaque_black() -> Rgba {
    Rgba { r: 0, g: 0, b: 0, a: 255 }
}

/// `c` is an ASCII hexadecimal digit.
pub open spec fn is_hex_digit(c: char) -> bool {
    let u = c as u32;
    (0x30 <= u && u <= 0x39) || (0x41 <= u && u <= 0x46) || (0x61 <= u && u <= 0x66)
}

/// Numeric value of an ASCII hexadecimal digit.
pub open spec fn hex_val(c: char) -> u32 {
    let u = c as u32;
    if 0x30 <= u && u <= 0x39 {
        (u - 0x30) as u32
    } else if 0x41 <= u && u <= 0x46 {
        (u - 0x41 + 10) as u32
    } else {
        (u - 0x61 + 10) as u32
    }
}

/// The color string with its leading `#` characters removed.
pub open spec fn strip_hash(s: Seq<char>) -> Seq<char>
    decreases s.len(),
{
    if s.len() > 0 && s[0] == '#' {
        strip_hash(s.drop_first())
    } else {
        s
    }
}

/// One 8-bit channel from the hex digits at positions `i` and `i + 1`.
pub open spec fn channel_at(t: Seq<char>, i: int) -> u8 {
    (hex_val(t[i]) * 16 + hex_val(t[i + 1])) as u8
}

/// Color denoted by a theme string: after stripping leading `#`
/// characters, exactly eight hexadecimal digits, `rrggbbaa`. Anything
/// else denotes opaque black.
pub open spec fn parse_color_spec(s: Seq<char>) -> Rgba {
    let t = strip_hash(s);
    if t.len() == 8 && (forall|k: int| 0 <= k < 8 ==> is_hex_digit(#[trigger] t[k])) {
        Rgba {
            r: channel_at(t, 0),
            g: channel_at(t, 2),
            b: channel_at(t, 4),
            a: channel_at(t, 6),
        }
    } else {
        opaque_black()
    }
}

/// Runtime test and value of a hexadecimal digit.
fn hex_digit(c: char) -> (r: Option<u8>)
    ensures
        r is Some <==> is_hex_digit(c),
        r is Some ==> r->Some_0 == hex_val(c) && r->Some_0 < 16,
{
    let u = c as u32;
    if 0x30 <= u && u <= 0x39 {
        Some((u - 0x30) as u8)
    } else if 0x41 <= u && u <= 0x46 {
        Some((u - 0x41 + 10) as u8)
    } else if 0x61 <= u && u <= 0x66 {
        Some((u - 0x61 + 10) as u8)
    } else {
        None
    }
}

proof fn lemma_strip_hash_skip(s: Seq<char>, i: int)
    requires
        0 <= i <= s.len(),
        forall|j: int| 0 <= j < i ==> s[j] == '#',
        i < s.len() ==> s[i] != '#',
    ensures
        strip_hash(s) == s.skip(i),
    decreases i,
{
    if i == 0 {
        assert(s.skip(0) =~= s);
    } else {
        assert(forall|k: int|
            0 <= k < s.len() - 1 ==> s.drop_first()[k] == s[k + 1]);
        lemma_strip_hash_skip(s.drop_first(), i - 1);
        assert(s.drop_first().skip(i - 1) =~= s.skip(i));
    }
}

impl ThemeConfig {
    /// Parses an `rrggbbaa` theme color string, ignoring leading `#`
    /// characters; malformed strings fall back to opaque black.
    pub fn parse_color(hex: &str) -> (r: Rgba)
        ensures
            r == parse_color_spec(hex@),
    {
        let n = hex.unicode_len();
        let mut start: usize = 0;
        while start < n && hex.get_char(start) == '#'
            invariant
                n == hex@.len(),
                start <= n,
                forall|j: int| 0 <= j < start ==> hex@[j] == '#',
            decreases n - start,
        {
            start += 1;
        }
        proof {
            lemma_strip_hash_skip(hex@, start as int);
        }
        if n - start != 8 {
            return Rgba { r: 0, g: 0, b: 0, a: 255 };
        }
        let mut digits: [u8; 8] = [0; 8];
        let mut k: usize = 0;
        while k < 8
            invariant
                n == hex@.len(),
                start + 8 == n,
                strip_hash(hex@) == hex@.skip(start as int),
                k <= 8,
                forall|j: int| 0 <= j < k ==> is_hex_digit(#[trigger] hex@.skip(start as int)[j]),
                forall|j: int|
                    0 <= j < k ==> #[trigger] digits@[j] == hex_val(hex@.skip(start as int)[j])
                        && digits@[j] < 16,
            decreases 8 - k,
        {
            match hex_digit(hex.get_char(start + k)) {
                Some(v) => {
                    digits[k] = v;
                },
                None => {
                    return Rgba { r: 0, g: 0, b: 0, a: 255 };
                },
            }
            k += 1;
        }
        let r = digits[0] * 16 + digits[1];
        let g = digits[2] * 16 + digits[3];
        let b = digits[4] * 16 + digits[5];
        let a = digits[6] * 16 + digits[7];
        Rgba { r, g, b, a }
    }
}

} // verus!
