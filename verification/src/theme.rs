//! Colour as a remap of what has been painted.
//!
//! What draws never sees a theme. It paints with the role colours below: named
//! colours for foregrounds, indexed ones for the roles that have no name. Once a
//! frame is drawn, [`apply`] rewrites every cell of it.

use vstd::prelude::*;
use crate::buffer::{Buffer, CellView};
use crate::chars::{group_views, same, views};
use crate::style::{bold, fg, on, Color, Modifier, Style};

verus! {

broadcast use group_views;

pub const PRIMARY: Color = Color::Reset;

pub const SECONDARY: Color = Color::Gray;

pub const MUTED: Color = Color::DarkGray;

pub const BORDER: Color = Color::DarkGray;

pub const FOCUS_BORDER: Color = Color::Cyan;

pub const USER: Color = Color::LightCyan;

pub const RUNNING: Color = Color::Cyan;

pub const ASSISTANT: Color = Color::LightGreen;

pub const SUCCESS: Color = Color::Green;

pub const WAITING: Color = Color::Yellow;

pub const ERROR: Color = Color::LightRed;

pub const REASONING: Color = Color::LightMagenta;

pub const MARKUP: Color = Color::LightBlue;

pub const CODE: Color = Color::Blue;

pub const SELECTED_FG: Color = Color::Black;

// The indexed colours of the roles without a name. The numbers are never shown:
// every theme resolves them.
pub const SURFACE: u8 = 235;

pub const SURFACE_ALT: u8 = 237;

pub const CODE_BG: u8 = 236;

pub const DIFF_ADD_BG: u8 = 22;

pub const DIFF_DEL_BG: u8 = 52;

pub const SELECTION_BG: u8 = 24;

pub const SYN_KEYWORD: u8 = 141;

pub const SYN_STRING: u8 = 114;

pub const SYN_NUMBER: u8 = 179;

pub const SYN_COMMENT: u8 = 245;

#[derive(Clone, Copy, PartialEq, Eq, Structural, Debug)]
pub enum ThemeId {
    Terminal,
    Carbon,
    Parchment,
    Frost,
    HighContrast,
    Monokai,
    Dracula,
    GruvboxDark,
    GruvboxLight,
    SolarizedDark,
    SolarizedLight,
    TokyoNight,
    CatppuccinMocha,
    OneDark,
    RosePine,
}

/// The name that a theme is stored under.
pub open spec fn theme_id(theme: ThemeId) -> Seq<char> {
    match theme {
        ThemeId::Terminal => "terminal"@,
        ThemeId::Carbon => "carbon"@,
        ThemeId::Parchment => "parchment"@,
        ThemeId::Frost => "frost"@,
        ThemeId::HighContrast => "high-contrast"@,
        ThemeId::Monokai => "monokai"@,
        ThemeId::Dracula => "dracula"@,
        ThemeId::GruvboxDark => "gruvbox-dark"@,
        ThemeId::GruvboxLight => "gruvbox-light"@,
        ThemeId::SolarizedDark => "solarized-dark"@,
        ThemeId::SolarizedLight => "solarized-light"@,
        ThemeId::TokyoNight => "tokyo-night"@,
        ThemeId::CatppuccinMocha => "catppuccin-mocha"@,
        ThemeId::OneDark => "one-dark"@,
        ThemeId::RosePine => "rose-pine"@,
    }
}

/// The name that a theme is shown under.
pub open spec fn theme_label(theme: ThemeId) -> Seq<char> {
    match theme {
        ThemeId::Terminal => "Terminal Adaptive"@,
        ThemeId::Carbon => "Carbon"@,
        ThemeId::Parchment => "Parchment"@,
        ThemeId::Frost => "Frost"@,
        ThemeId::HighContrast => "High Contrast"@,
        ThemeId::Monokai => "Monokai"@,
        ThemeId::Dracula => "Dracula"@,
        ThemeId::GruvboxDark => "Gruvbox Dark"@,
        ThemeId::GruvboxLight => "Gruvbox Light"@,
        ThemeId::SolarizedDark => "Solarized Dark"@,
        ThemeId::SolarizedLight => "Solarized Light"@,
        ThemeId::TokyoNight => "Tokyo Night"@,
        ThemeId::CatppuccinMocha => "Catppuccin Mocha"@,
        ThemeId::OneDark => "One Dark"@,
        ThemeId::RosePine => "Rosé Pine"@,
    }
}

/// What a theme looks like.
pub open spec fn theme_description(theme: ThemeId) -> Seq<char> {
    match theme {
        ThemeId::Terminal => "Uses your terminal's native foreground and background"@,
        ThemeId::Carbon => "Deep graphite with bright cyan and green accents"@,
        ThemeId::Parchment => "Warm light canvas with ink-like contrast"@,
        ThemeId::Frost => "Cool blue-gray with soft arctic accents"@,
        ThemeId::HighContrast => "Maximum separation on a black canvas"@,
        ThemeId::Monokai => "The classic high-chroma dark palette"@,
        ThemeId::Dracula => "Violet-forward dark with pastel accents"@,
        ThemeId::GruvboxDark => "Retro warm earth tones on brown-black"@,
        ThemeId::GruvboxLight => "The same earth tones on warm paper"@,
        ThemeId::SolarizedDark => "Precision-balanced cyan-tinted dark"@,
        ThemeId::SolarizedLight => "The same balance on antique paper"@,
        ThemeId::TokyoNight => "Deep blue night with neon accents"@,
        ThemeId::CatppuccinMocha => "Soft pastels on a muted lavender-black"@,
        ThemeId::OneDark => "Atom's balanced slate-blue dark"@,
        ThemeId::RosePine => "Muted rose and pine on charcoal ink"@,
    }
}

impl ThemeId {
    pub const ALL: [ThemeId; 15] = [
        ThemeId::Terminal,
        ThemeId::Carbon,
        ThemeId::Parchment,
        ThemeId::Frost,
        ThemeId::HighContrast,
        ThemeId::Monokai,
        ThemeId::Dracula,
        ThemeId::GruvboxDark,
        ThemeId::GruvboxLight,
        ThemeId::SolarizedDark,
        ThemeId::SolarizedLight,
        ThemeId::TokyoNight,
        ThemeId::CatppuccinMocha,
        ThemeId::OneDark,
        ThemeId::RosePine,
    ];

    /// The name that the theme is stored under.
    pub fn id(self) -> (r: &'static str)
        ensures
            r@ == theme_id(self),
    {
        match self {
            ThemeId::Terminal => "terminal",
            ThemeId::Carbon => "carbon",
            ThemeId::Parchment => "parchment",
            ThemeId::Frost => "frost",
            ThemeId::HighContrast => "high-contrast",
            ThemeId::Monokai => "monokai",
            ThemeId::Dracula => "dracula",
            ThemeId::GruvboxDark => "gruvbox-dark",
            ThemeId::GruvboxLight => "gruvbox-light",
            ThemeId::SolarizedDark => "solarized-dark",
            ThemeId::SolarizedLight => "solarized-light",
            ThemeId::TokyoNight => "tokyo-night",
            ThemeId::CatppuccinMocha => "catppuccin-mocha",
            ThemeId::OneDark => "one-dark",
            ThemeId::RosePine => "rose-pine",
        }
    }

    /// The name that the theme is shown under.
    pub fn label(self) -> (r: &'static str)
        ensures
            r@ == theme_label(self),
    {
        match self {
            ThemeId::Terminal => "Terminal Adaptive",
            ThemeId::Carbon => "Carbon",
            ThemeId::Parchment => "Parchment",
            ThemeId::Frost => "Frost",
            ThemeId::HighContrast => "High Contrast",
            ThemeId::Monokai => "Monokai",
            ThemeId::Dracula => "Dracula",
            ThemeId::GruvboxDark => "Gruvbox Dark",
            ThemeId::GruvboxLight => "Gruvbox Light",
            ThemeId::SolarizedDark => "Solarized Dark",
            ThemeId::SolarizedLight => "Solarized Light",
            ThemeId::TokyoNight => "Tokyo Night",
            ThemeId::CatppuccinMocha => "Catppuccin Mocha",
            ThemeId::OneDark => "One Dark",
            ThemeId::RosePine => "Rosé Pine",
        }
    }

    /// What the theme looks like.
    pub fn description(self) -> (r: &'static str)
        ensures
            r@ == theme_description(self),
    {
        match self {
            ThemeId::Terminal => "Uses your terminal's native foreground and background",
            ThemeId::Carbon => "Deep graphite with bright cyan and green accents",
            ThemeId::Parchment => "Warm light canvas with ink-like contrast",
            ThemeId::Frost => "Cool blue-gray with soft arctic accents",
            ThemeId::HighContrast => "Maximum separation on a black canvas",
            ThemeId::Monokai => "The classic high-chroma dark palette",
            ThemeId::Dracula => "Violet-forward dark with pastel accents",
            ThemeId::GruvboxDark => "Retro warm earth tones on brown-black",
            ThemeId::GruvboxLight => "The same earth tones on warm paper",
            ThemeId::SolarizedDark => "Precision-balanced cyan-tinted dark",
            ThemeId::SolarizedLight => "The same balance on antique paper",
            ThemeId::TokyoNight => "Deep blue night with neon accents",
            ThemeId::CatppuccinMocha => "Soft pastels on a muted lavender-black",
            ThemeId::OneDark => "Atom's balanced slate-blue dark",
            ThemeId::RosePine => "Muted rose and pine on charcoal ink",
        }
    }

    /// The theme stored under `id`.
    pub fn parse(id: &str) -> (r: Option<ThemeId>)
        ensures
            match r {
                Some(theme) => theme_id(theme) == id@,
                None => forall|theme: ThemeId| theme_id(theme) != id@,
            },
    {
        let mut i: usize = 0;
        while i < 15
            invariant
                i <= 15,
                forall|k: int| 0 <= k < i ==> theme_id(#[trigger] ThemeId::ALL@[k]) != id@,
            decreases 15 - i,
        {
            if same(ThemeId::ALL[i].id(), id) {
                return Some(ThemeId::ALL[i]);
            }
            i += 1;
        }
        proof {
            assert forall|theme: ThemeId| theme_id(theme) != id@ by {
                lemma_all_themes(theme);
            }
        }
        None
    }
}

/// The colours of a theme.
#[derive(Clone, Copy, PartialEq, Eq, Structural, Debug)]
pub struct Palette {
    pub canvas: Color,
    pub primary: Color,
    pub secondary: Color,
    pub muted: Color,
    pub running: Color,
    pub user: Color,
    pub assistant: Color,
    pub success: Color,
    pub waiting: Color,
    pub error: Color,
    pub reasoning: Color,
    pub markup: Color,
    pub code: Color,
    pub selected_fg: Color,
    /// Absent where the canvas is not known, and so must not be painted.
    pub surfaces: Option<Surfaces>,
    pub syntax: Syntax,
}

/// Backgrounds. Each is a tint of the canvas but for the selection, which is
/// meant to be found.
#[derive(Clone, Copy, PartialEq, Eq, Structural, Debug)]
pub struct Surfaces {
    pub surface: Color,
    pub surface_alt: Color,
    pub code_bg: Color,
    pub diff_add_bg: Color,
    pub diff_del_bg: Color,
    pub selection_bg: Color,
}

/// The classes of words in code.
#[derive(Clone, Copy, PartialEq, Eq, Structural, Debug)]
pub struct Syntax {
    pub keyword: Color,
    pub string: Color,
    pub number: Color,
    pub comment: Color,
}

// The tuned palettes, as hexadecimal colours: canvas, primary, secondary, muted,
// running, user; assistant, success, waiting, error, reasoning, markup; code,
// selected text, then the surfaces; and the syntax classes.
pub const CARBON: [u32; 24] = [
    0x101318, 0xf0f3f6, 0xbbc3cc, 0x8c96a2, 0x54d6e8, 0x79d7ff,
    0x8fe388, 0x6fdb9a, 0xffd166, 0xff7b86, 0xd5a6ff, 0x82b7ff,
    0x60a5fa, 0x071014, 0x181c23, 0x20252d, 0x1c2129, 0x142c20,
    0x38191e, 0x233e52, 0xc6a0f6, 0xa6da95, 0xf5a97f, 0x737d8a,
];

pub const PARCHMENT: [u32; 24] = [
    0xfaf7f0, 0x171a1f, 0x38414a, 0x69727c, 0x006b73, 0x005a82,
    0x276500, 0x166534, 0x7a4d00, 0xb4232d, 0x6f3fa0, 0x195eb8,
    0x334e9a, 0xffffff, 0xf3efe5, 0xece7da, 0xf0ece1, 0xdfeedb,
    0xf7dfdf, 0xd6e3f3, 0x892c89, 0x185c3c, 0x96440c, 0x7a828a,
];

pub const FROST: [u32; 24] = [
    0x1e2430, 0xeceff4, 0xc7cedb, 0x96a0b2, 0x88c0d0, 0x81a1c1,
    0xa3d9a5, 0xa3be8c, 0xebcb8b, 0xef8f93, 0xc7a0d8, 0x8fb8e8,
    0x79b8ff, 0x15202a, 0x262d3b, 0x2e3646, 0x2a3241, 0x26382e,
    0x402a30, 0x344a63, 0xb48ead, 0xa3be8c, 0xd08770, 0x7e899c,
];

pub const HIGH_CONTRAST: [u32; 24] = [
    0x000000, 0xffffff, 0xd0d0d0, 0xa8a8a8, 0x00e5ff, 0x65d9ff,
    0x80ff9f, 0x54e58b, 0xffd75f, 0xff7b7b, 0xe0a0ff, 0x8cb4ff,
    0x66b3ff, 0x000000, 0x121212, 0x1e1e1e, 0x181818, 0x003018,
    0x38000c, 0x003c5a, 0xe0a0ff, 0x80ff9f, 0xffbe80, 0xa0a0a0,
];

pub const MONOKAI: [u32; 24] = [
    0x272822, 0xf8f8f2, 0xcacac4, 0x7a7664, 0x66d9ef, 0x66d9ef,
    0xa6e22e, 0xa6e22e, 0xe6db74, 0xf92672, 0xae81ff, 0x66d9ef,
    0x66d9ef, 0x272822, 0x363731, 0x44453f, 0x3c3d37, 0x435125,
    0x552834, 0x385758, 0xf976a3, 0xe6db74, 0xb48bfe, 0x8f8c7c,
];

pub const DRACULA: [u32; 24] = [
    0x282a36, 0xf8f8f2, 0xcacbc9, 0x6877a7, 0x8be9fd, 0xbd93f9,
    0x50fa7b, 0x50fa7b, 0xf1fa8c, 0xff5555, 0xff79c6, 0xbd93f9,
    0x8be9fd, 0x282a36, 0x373843, 0x454750, 0x3d3f49, 0x315845,
    0x57333d, 0x584c74, 0xff79c6, 0xf1fa8c, 0xbd93f9, 0x838fb5,
];

pub const GRUVBOX_DARK: [u32; 24] = [
    0x282828, 0xebdbb2, 0xc0b494, 0x928374, 0x8ec07c, 0x83a598,
    0xb8bb26, 0xb8bb26, 0xfabd2f, 0xfb4934, 0xd3869b, 0x83a598,
    0x8ec07c, 0x282828, 0x363532, 0x43413b, 0x3c3a36, 0x484828,
    0x562f2b, 0x45504c, 0xf67b5f, 0xb8bb26, 0xd4899c, 0x968776,
];

pub const GRUVBOX_LIGHT: [u32; 24] = [
    0xfbf1c7, 0x3c3836, 0x666156, 0x7c6f64, 0x427b58, 0x076678,
    0x79740e, 0x79740e, 0xb57614, 0x9d0006, 0x8f3f71, 0x076678,
    0x427b58, 0xfbf1c7, 0xeee4bd, 0xe0d7b3, 0xe8deb8, 0xded69e,
    0xe6bc9d, 0xadc5ae, 0x9d0006, 0x6e6915, 0x8f3f71, 0x7c6f64,
];

pub const SOLARIZED_DARK: [u32; 24] = [
    0x002b36, 0x93a1a1, 0x738789, 0x64787e, 0x2aa198, 0x268bd2,
    0x859900, 0x859900, 0xb58900, 0xdc322f, 0xd33682, 0x268bd2,
    0x2aa198, 0x002b36, 0x0a333d, 0x103842, 0x0f3741, 0x11392f,
    0x302d34, 0x05374a, 0x8a9c3d, 0x50a19b, 0x9d909c, 0x718387,
];

pub const SOLARIZED_LIGHT: [u32; 24] = [
    0xfdf6e3, 0x586e75, 0x7c8c8d, 0x7b8d8f, 0x2aa198, 0x268bd2,
    0x859900, 0x859900, 0xb58900, 0xdc322f, 0xd33682, 0x268bd2,
    0x2aa198, 0xfdf6e3, 0xf6f0de, 0xf6f0de, 0xf6f0de, 0xf6f0d5,
    0xfceedc, 0xf2f1e2, 0x637859, 0x4e797d, 0xc43d80, 0x77898c,
];

pub const TOKYO_NIGHT: [u32; 24] = [
    0x1a1b26, 0xc0caf5, 0x9ba4c7, 0x616a94, 0x7dcfff, 0x7aa2f7,
    0x9ece6a, 0x9ece6a, 0xe0af68, 0xf7768e, 0xbb9af7, 0x7aa2f7,
    0x7dcfff, 0x1a1b26, 0x262734, 0x313443, 0x2b2c3b, 0x374235,
    0x4b2f3d, 0x394669, 0xbb9af7, 0x9ece6a, 0xff9e64, 0x6f79a3,
];

pub const CATPPUCCIN_MOCHA: [u32; 24] = [
    0x1e1e2e, 0xcdd6f4, 0xa6aec8, 0x6c7086, 0x94e2d5, 0x89b4fa,
    0xa6e3a1, 0xa6e3a1, 0xf9e2af, 0xf38ba8, 0xcba6f7, 0x89b4fa,
    0x94e2d5, 0x1e1e2e, 0x2a2b3c, 0x36384a, 0x303042, 0x3c4947,
    0x4d3649, 0x3e4b6b, 0xcba6f7, 0xa6e3a1, 0xfab387, 0x7a7e95,
];

pub const ONE_DARK: [u32; 24] = [
    0x282c34, 0xabb2bf, 0x8e95a0, 0x747b88, 0x56b6c2, 0x61afef,
    0x98c379, 0x98c379, 0xe5c07b, 0xe06c75, 0xc678dd, 0x61afef,
    0x56b6c2, 0x282c34, 0x31353e, 0x3a3f47, 0x353942, 0x3a443f,
    0x503a42, 0x324355, 0xbf87d5, 0x98c379, 0xd19a66, 0x808794,
];

pub const ROSE_PINE: [u32; 24] = [
    0x191724, 0xe0def4, 0xb4b2c6, 0x6e6a86, 0x9ccfd8, 0x31748f,
    0x9ccfd8, 0x9ccfd8, 0xf6c177, 0xeb6f92, 0xc4a7e7, 0x31748f,
    0x9ccfd8, 0x191724, 0x272533, 0x353341, 0x2d2b39, 0x363f4c,
    0x472a3c, 0x213546, 0xc4a7e7, 0xf6c177, 0xebbcba, 0x7c7893,
];

/// A colour from its hexadecimal number.
pub open spec fn hex(n: u32) -> Color {
    Color::Rgb((n / 0x10000 % 0x100) as u8, (n / 0x100 % 0x100) as u8, (n % 0x100) as u8)
}

/// A palette from its table.
pub open spec fn tuned(c: Seq<u32>) -> Palette {
    Palette {
        canvas: hex(c[0]),
        primary: hex(c[1]),
        secondary: hex(c[2]),
        muted: hex(c[3]),
        running: hex(c[4]),
        user: hex(c[5]),
        assistant: hex(c[6]),
        success: hex(c[7]),
        waiting: hex(c[8]),
        error: hex(c[9]),
        reasoning: hex(c[10]),
        markup: hex(c[11]),
        code: hex(c[12]),
        selected_fg: hex(c[13]),
        surfaces: Some(
            Surfaces {
                surface: hex(c[14]),
                surface_alt: hex(c[15]),
                code_bg: hex(c[16]),
                diff_add_bg: hex(c[17]),
                diff_del_bg: hex(c[18]),
                selection_bg: hex(c[19]),
            },
        ),
        syntax: Syntax {
            keyword: hex(c[20]),
            string: hex(c[21]),
            number: hex(c[22]),
            comment: hex(c[23]),
        },
    }
}

/// The palette that leaves every named colour as the terminal has it.
pub open spec fn adaptive() -> Palette {
    Palette {
        canvas: Color::Reset,
        primary: PRIMARY,
        secondary: SECONDARY,
        muted: MUTED,
        running: RUNNING,
        user: USER,
        assistant: ASSISTANT,
        success: SUCCESS,
        waiting: WAITING,
        error: ERROR,
        reasoning: REASONING,
        markup: MARKUP,
        code: CODE,
        selected_fg: SELECTED_FG,
        surfaces: None,
        syntax: Syntax { keyword: MARKUP, string: SUCCESS, number: WAITING, comment: MUTED },
    }
}

/// The palette of a theme.
pub open spec fn palette_of(theme: ThemeId) -> Palette {
    match theme {
        ThemeId::Terminal => adaptive(),
        ThemeId::Carbon => tuned(CARBON@),
        ThemeId::Parchment => tuned(PARCHMENT@),
        ThemeId::Frost => tuned(FROST@),
        ThemeId::HighContrast => tuned(HIGH_CONTRAST@),
        ThemeId::Monokai => tuned(MONOKAI@),
        ThemeId::Dracula => tuned(DRACULA@),
        ThemeId::GruvboxDark => tuned(GRUVBOX_DARK@),
        ThemeId::GruvboxLight => tuned(GRUVBOX_LIGHT@),
        ThemeId::SolarizedDark => tuned(SOLARIZED_DARK@),
        ThemeId::SolarizedLight => tuned(SOLARIZED_LIGHT@),
        ThemeId::TokyoNight => tuned(TOKYO_NIGHT@),
        ThemeId::CatppuccinMocha => tuned(CATPPUCCIN_MOCHA@),
        ThemeId::OneDark => tuned(ONE_DARK@),
        ThemeId::RosePine => tuned(ROSE_PINE@),
    }
}

proof fn lemma_all_themes(theme: ThemeId)
    ensures
        exists|k: int| 0 <= k < 15 && #[trigger] ThemeId::ALL@[k] == theme,
{
    match theme {
        ThemeId::Terminal => assert(ThemeId::ALL@[0] == theme),
        ThemeId::Carbon => assert(ThemeId::ALL@[1] == theme),
        ThemeId::Parchment => assert(ThemeId::ALL@[2] == theme),
        ThemeId::Frost => assert(ThemeId::ALL@[3] == theme),
        ThemeId::HighContrast => assert(ThemeId::ALL@[4] == theme),
        ThemeId::Monokai => assert(ThemeId::ALL@[5] == theme),
        ThemeId::Dracula => assert(ThemeId::ALL@[6] == theme),
        ThemeId::GruvboxDark => assert(ThemeId::ALL@[7] == theme),
        ThemeId::GruvboxLight => assert(ThemeId::ALL@[8] == theme),
        ThemeId::SolarizedDark => assert(ThemeId::ALL@[9] == theme),
        ThemeId::SolarizedLight => assert(ThemeId::ALL@[10] == theme),
        ThemeId::TokyoNight => assert(ThemeId::ALL@[11] == theme),
        ThemeId::CatppuccinMocha => assert(ThemeId::ALL@[12] == theme),
        ThemeId::OneDark => assert(ThemeId::ALL@[13] == theme),
        ThemeId::RosePine => assert(ThemeId::ALL@[14] == theme),
    }
}

fn hex_color(n: u32) -> (r: Color)
    ensures
        r == hex(n),
{
    Color::Rgb((n / 0x10000 % 0x100) as u8, (n / 0x100 % 0x100) as u8, (n % 0x100) as u8)
}

fn tuned_palette(c: &[u32; 24]) -> (r: Palette)
    ensures
        r == tuned(c@),
{
    Palette {
        canvas: hex_color(c[0]),
        primary: hex_color(c[1]),
        secondary: hex_color(c[2]),
        muted: hex_color(c[3]),
        running: hex_color(c[4]),
        user: hex_color(c[5]),
        assistant: hex_color(c[6]),
        success: hex_color(c[7]),
        waiting: hex_color(c[8]),
        error: hex_color(c[9]),
        reasoning: hex_color(c[10]),
        markup: hex_color(c[11]),
        code: hex_color(c[12]),
        selected_fg: hex_color(c[13]),
        surfaces: Some(
            Surfaces {
                surface: hex_color(c[14]),
                surface_alt: hex_color(c[15]),
                code_bg: hex_color(c[16]),
                diff_add_bg: hex_color(c[17]),
                diff_del_bg: hex_color(c[18]),
                selection_bg: hex_color(c[19]),
            },
        ),
        syntax: Syntax {
            keyword: hex_color(c[20]),
            string: hex_color(c[21]),
            number: hex_color(c[22]),
            comment: hex_color(c[23]),
        },
    }
}

/// The palette of a theme.
pub fn palette(theme: ThemeId) -> (r: Palette)
    ensures
        r == palette_of(theme),
{
    match theme {
        ThemeId::Terminal => Palette {
            canvas: Color::Reset,
            primary: PRIMARY,
            secondary: SECONDARY,
            muted: MUTED,
            running: RUNNING,
            user: USER,
            assistant: ASSISTANT,
            success: SUCCESS,
            waiting: WAITING,
            error: ERROR,
            reasoning: REASONING,
            markup: MARKUP,
            code: CODE,
            selected_fg: SELECTED_FG,
            surfaces: None,
            syntax: Syntax { keyword: MARKUP, string: SUCCESS, number: WAITING, comment: MUTED },
        },
        ThemeId::Carbon => tuned_palette(&CARBON),
        ThemeId::Parchment => tuned_palette(&PARCHMENT),
        ThemeId::Frost => tuned_palette(&FROST),
        ThemeId::HighContrast => tuned_palette(&HIGH_CONTRAST),
        ThemeId::Monokai => tuned_palette(&MONOKAI),
        ThemeId::Dracula => tuned_palette(&DRACULA),
        ThemeId::GruvboxDark => tuned_palette(&GRUVBOX_DARK),
        ThemeId::GruvboxLight => tuned_palette(&GRUVBOX_LIGHT),
        ThemeId::SolarizedDark => tuned_palette(&SOLARIZED_DARK),
        ThemeId::SolarizedLight => tuned_palette(&SOLARIZED_LIGHT),
        ThemeId::TokyoNight => tuned_palette(&TOKYO_NIGHT),
        ThemeId::CatppuccinMocha => tuned_palette(&CATPPUCCIN_MOCHA),
        ThemeId::OneDark => tuned_palette(&ONE_DARK),
        ThemeId::RosePine => tuned_palette(&ROSE_PINE),
    }
}

/// The canvas of a theme.
pub fn canvas(theme: ThemeId) -> (r: Color)
    ensures
        r == palette_of(theme).canvas,
{
    palette(theme).canvas
}

/// What an indexed colour stands for.
#[derive(Clone, Copy, PartialEq, Eq, Structural, Debug)]
pub enum Role {
    Surface,
    SurfaceAlt,
    CodeBg,
    DiffAddBg,
    DiffDelBg,
    SelectionBg,
    Keyword,
    StringLiteral,
    Number,
    Comment,
}

/// The role of a colour, where it is a sentinel.
pub open spec fn role_of(color: Color) -> Option<Role> {
    match color {
        Color::Indexed(n) => if n == SURFACE {
            Some(Role::Surface)
        } else if n == SURFACE_ALT {
            Some(Role::SurfaceAlt)
        } else if n == CODE_BG {
            Some(Role::CodeBg)
        } else if n == DIFF_ADD_BG {
            Some(Role::DiffAddBg)
        } else if n == DIFF_DEL_BG {
            Some(Role::DiffDelBg)
        } else if n == SELECTION_BG {
            Some(Role::SelectionBg)
        } else if n == SYN_KEYWORD {
            Some(Role::Keyword)
        } else if n == SYN_STRING {
            Some(Role::StringLiteral)
        } else if n == SYN_NUMBER {
            Some(Role::Number)
        } else if n == SYN_COMMENT {
            Some(Role::Comment)
        } else {
            None
        },
        _ => None,
    }
}

impl Role {
    pub fn of(color: Color) -> (r: Option<Role>)
        ensures
            r == role_of(color),
    {
        match color {
            Color::Indexed(SURFACE) => Some(Role::Surface),
            Color::Indexed(SURFACE_ALT) => Some(Role::SurfaceAlt),
            Color::Indexed(CODE_BG) => Some(Role::CodeBg),
            Color::Indexed(DIFF_ADD_BG) => Some(Role::DiffAddBg),
            Color::Indexed(DIFF_DEL_BG) => Some(Role::DiffDelBg),
            Color::Indexed(SELECTION_BG) => Some(Role::SelectionBg),
            Color::Indexed(SYN_KEYWORD) => Some(Role::Keyword),
            Color::Indexed(SYN_STRING) => Some(Role::StringLiteral),
            Color::Indexed(SYN_NUMBER) => Some(Role::Number),
            Color::Indexed(SYN_COMMENT) => Some(Role::Comment),
            _ => None,
        }
    }
}

/// A foreground as a palette shows it. A surface used as a foreground stays
/// visible as it is.
pub open spec fn mapped_color(color: Color, palette: Palette) -> Color {
    match color {
        Color::Reset => palette.primary,
        Color::Gray => palette.secondary,
        Color::DarkGray => palette.muted,
        Color::Cyan => palette.running,
        Color::LightCyan => palette.user,
        Color::LightGreen => palette.assistant,
        Color::Green => palette.success,
        Color::Yellow => palette.waiting,
        Color::LightRed => palette.error,
        Color::LightMagenta => palette.reasoning,
        Color::LightBlue => palette.markup,
        Color::Blue => palette.code,
        Color::Black => palette.selected_fg,
        _ => match role_of(color) {
            Some(Role::Keyword) => palette.syntax.keyword,
            Some(Role::StringLiteral) => palette.syntax.string,
            Some(Role::Number) => palette.syntax.number,
            Some(Role::Comment) => palette.syntax.comment,
            _ => color,
        },
    }
}

/// A background as a palette shows it, and whether the cell is reversed
/// instead: without a tint of its own a selection has to be found somehow.
pub open spec fn mapped_background(color: Color, palette: Palette) -> (Color, bool) {
    match role_of(color) {
        None => (
            if color == Color::Reset {
                palette.canvas
            } else {
                mapped_color(color, palette)
            },
            false,
        ),
        Some(role) => match palette.surfaces {
            None => (palette.canvas, role == Role::SelectionBg),
            Some(surfaces) => (
                match role {
                    Role::Surface => surfaces.surface,
                    Role::SurfaceAlt => surfaces.surface_alt,
                    Role::CodeBg => surfaces.code_bg,
                    Role::DiffAddBg => surfaces.diff_add_bg,
                    Role::DiffDelBg => surfaces.diff_del_bg,
                    Role::SelectionBg => surfaces.selection_bg,
                    _ => palette.canvas,
                },
                false,
            ),
        },
    }
}

/// A cell as a palette shows it.
pub open spec fn mapped_cell(cell: CellView, palette: Palette) -> CellView {
    let background = mapped_background(cell.bg, palette);
    CellView {
        symbol: cell.symbol,
        fg: mapped_color(cell.fg, palette),
        bg: background.0,
        modifier: Modifier {
            reversed: cell.modifier.reversed || background.1,
            ..cell.modifier
        },
    }
}

pub fn map_color(color: Color, palette: Palette) -> (r: Color)
    ensures
        r == mapped_color(color, palette),
{
    match color {
        Color::Reset => palette.primary,
        Color::Gray => palette.secondary,
        Color::DarkGray => palette.muted,
        Color::Cyan => palette.running,
        Color::LightCyan => palette.user,
        Color::LightGreen => palette.assistant,
        Color::Green => palette.success,
        Color::Yellow => palette.waiting,
        Color::LightRed => palette.error,
        Color::LightMagenta => palette.reasoning,
        Color::LightBlue => palette.markup,
        Color::Blue => palette.code,
        Color::Black => palette.selected_fg,
        _ => match Role::of(color) {
            Some(Role::Keyword) => palette.syntax.keyword,
            Some(Role::StringLiteral) => palette.syntax.string,
            Some(Role::Number) => palette.syntax.number,
            Some(Role::Comment) => palette.syntax.comment,
            _ => color,
        },
    }
}

pub fn map_background(color: Color, palette: Palette) -> (r: (Color, bool))
    ensures
        r == mapped_background(color, palette),
{
    let role: Role = match Role::of(color) {
        Some(role) => role,
        None => {
            return (
                if color == Color::Reset {
                    palette.canvas
                } else {
                    map_color(color, palette)
                },
                false,
            );
        },
    };
    let surfaces: Surfaces = match palette.surfaces {
        Some(surfaces) => surfaces,
        None => {
            return (palette.canvas, role == Role::SelectionBg);
        },
    };
    let tint: Color = match role {
        Role::Surface => surfaces.surface,
        Role::SurfaceAlt => surfaces.surface_alt,
        Role::CodeBg => surfaces.code_bg,
        Role::DiffAddBg => surfaces.diff_add_bg,
        Role::DiffDelBg => surfaces.diff_del_bg,
        Role::SelectionBg => surfaces.selection_bg,
        _ => palette.canvas,
    };
    (tint, false)
}

/// Paint a drawn frame in a theme.
pub fn apply(buffer: &mut Buffer, theme: ThemeId)
    ensures
        final(buffer).area == old(buffer).area,
        views(final(buffer).content@) == views(old(buffer).content@).map_values(
            |cell: CellView| mapped_cell(cell, palette_of(theme)),
        ),
{
    let palette: Palette = palette(theme);
    let ghost all = views(buffer.content@);
    let n: usize = buffer.content.len();
    let mut i: usize = 0;
    while i < n
        invariant
            i <= n,
            n == buffer.content@.len(),
            n == old(buffer).content@.len(),
            buffer.area == old(buffer).area,
            palette == palette_of(theme),
            all == views(old(buffer).content@),
            forall|k: int| i <= k < n ==> (#[trigger] buffer.content@[k])@ == all[k],
            forall|k: int|
                0 <= k < i ==> (#[trigger] buffer.content@[k])@ == mapped_cell(all[k], palette),
        decreases n - i,
    {
        let ghost before = buffer.content@;
        let cell = &mut buffer.content[i];
        cell.fg = map_color(cell.fg, palette);
        let (background, reverse) = map_background(cell.bg, palette);
        cell.bg = background;
        if reverse {
            cell.modifier.reversed = true;
        }
        assert(forall|k: int| 0 <= k < n && k != i ==> buffer.content@[k] == before[k]);
        i += 1;
    }
    assert(views(buffer.content@) =~= all.map_values(
        |cell: CellView| mapped_cell(cell, palette_of(theme)),
    ));
}

/// The style of what is selected in a list.
pub open spec fn selected_style() -> Style {
    on(fg(SELECTED_FG), RUNNING)
}

/// The style of a title.
pub open spec fn title_style(color: Color) -> Style {
    bold(fg(color))
}

pub fn selected() -> (r: Style)
    ensures
        r == selected_style(),
{
    Style::fg(SELECTED_FG).on(RUNNING)
}

pub fn panel_border() -> (r: Style)
    ensures
        r == fg(BORDER),
{
    Style::fg(BORDER)
}

pub fn focus_border() -> (r: Style)
    ensures
        r == bold(fg(FOCUS_BORDER)),
{
    Style::fg(FOCUS_BORDER).bold()
}

pub fn title(color: Color) -> (r: Style)
    ensures
        r == title_style(color),
{
    Style::fg(color).bold()
}

impl Default for ThemeId {
    /// A tuned dark theme: the adaptive one has no surfaces to show.
    fn default() -> (r: Self)
        ensures
            r == ThemeId::Carbon,
    {
        ThemeId::Carbon
    }
}

/// The adaptive theme leaves every named role colour as the terminal set it, and
/// paints no surface: a selection is reversed instead.
pub proof fn law_adaptive_theme_paints_nothing(color: Color)
    ensures
        color !is Indexed ==> mapped_color(color, palette_of(ThemeId::Terminal)) == color,
        role_of(color) is Some ==> mapped_background(color, palette_of(ThemeId::Terminal)) == (
            Color::Reset,
            color == Color::Indexed(SELECTION_BG),
        ),
{
}

/// No two themes are stored under one name.
pub proof fn law_theme_ids_are_distinct(a: ThemeId, b: ThemeId)
    ensures
        theme_id(a) == theme_id(b) ==> a == b,
{
    reveal_strlit("terminal");
    reveal_strlit("carbon");
    reveal_strlit("parchment");
    reveal_strlit("frost");
    reveal_strlit("high-contrast");
    reveal_strlit("monokai");
    reveal_strlit("dracula");
    reveal_strlit("gruvbox-dark");
    reveal_strlit("gruvbox-light");
    reveal_strlit("solarized-dark");
    reveal_strlit("solarized-light");
    reveal_strlit("tokyo-night");
    reveal_strlit("catppuccin-mocha");
    reveal_strlit("one-dark");
    reveal_strlit("rose-pine");
    let x = theme_id(a);
    let y = theme_id(b);
    assert(x == y ==> x.len() == y.len() && x[0] == y[0] && x[1] == y[1] && x[x.len() - 1] == y[
    y.len() - 1]);
}

/// A theme is found under the name it is stored under: what `parse` answers for
/// it can only be the theme itself.
pub proof fn law_parse_inverts_id(theme: ThemeId, parsed: Option<ThemeId>)
    requires
        match parsed {
            Some(t) => theme_id(t) == theme_id(theme),
            None => forall|t: ThemeId| theme_id(t) != theme_id(theme),
        },
    ensures
        parsed == Some(theme),
{
    match parsed {
        Some(t) => law_theme_ids_are_distinct(t, theme),
        None => {
            let id = theme_id(theme);
            assert(forall|t: ThemeId| theme_id(t) != id);
            assert(theme_id(theme) == id);
        },
    }
}

} // verus!
