use vstd::prelude::*;

verus! {

/// What a tree entry stands for.
#[derive(Clone, Copy, Debug, PartialEq, Eq, Structural)]
pub enum NodeType {
    File,
    Directory,
    /// A synthetic placeholder, not a filesystem entry.
    Info,
}

/// Rank used by the ordering policy: directories, then files, then placeholders.
pub open spec fn kind_rank(k: NodeType) -> int {
    match k {
        NodeType::Directory => 0,
        NodeType::File => 1,
        NodeType::Info => 2,
    }
}

impl NodeType {
    /// The rank of this kind in the ordering policy.
    pub fn rank(&self) -> (r: u8)
        ensures
            r as int == kind_rank(*self),
    {
        match self {
            NodeType::Directory => 0,
            NodeType::File => 1,
            NodeType::Info => 2,
        }
    }
}

/// The input mode of the application.
#[derive(Clone, Copy, Debug, PartialEq, Eq, Structural)]
pub enum AppMode {
    InsertMode,
    CommandMode,
    NormalMode,
}

#[allow(non_camel_case_types)]
#[derive(Clone, Copy, Debug, PartialEq, Eq, Structural)]
pub enum StatusLevel {
    INFO,
    WARNING,
    ERROR,
}

/// The one-line message of the status bar.
pub struct Status {
    pub text: String,
    pub level: StatusLevel,
}

pub struct StatusView {
    pub text: Seq<char>,
    pub level: StatusLevel,
}

impl View for Status {
    type V = StatusView;

    open spec fn view(&self) -> StatusView {
        StatusView { text: self.text@, level: self.level }
    }
}

impl Clone for Status {
    fn clone(&self) -> (r: Status)
        ensures
            r@ == self@,
    {
        Status { text: self.text.clone(), level: self.level }
    }
}

impl Default for Status {
    fn default() -> (r: Status)
        ensures
            r.text@.len() == 0,
            r.level == StatusLevel::INFO,
    {
        Status { text: String::new(), level: StatusLevel::INFO }
    }
}

impl Status {
    /// An error-level status with the given text.
    pub fn error(text: String) -> (r: Status)
        ensures
            r.text == text,
            r.level == StatusLevel::ERROR,
    {
        Status { text, level: StatusLevel::ERROR }
    }
}

/// What a command asks of the application.
pub enum AppEvent {
    Close,
    ShowDialog(String, String),
    SetStatus(Status),
    SetWorkspace(String),
}

pub enum AppEventView {
    Close,
    ShowDialog(Seq<char>, Seq<char>),
    SetStatus(StatusView),
    SetWorkspace(Seq<char>),
}

impl View for AppEvent {
    type V = AppEventView;

    open spec fn view(&self) -> AppEventView {
        match self {
            AppEvent::Close => AppEventView::Close,
            AppEvent::ShowDialog(t, c) => AppEventView::ShowDialog(t@, c@),
            AppEvent::SetStatus(s) => AppEventView::SetStatus(s@),
            AppEvent::SetWorkspace(w) => AppEventView::SetWorkspace(w@),
        }
    }
}

impl Clone for AppEvent {
    fn clone(&self) -> (r: AppEvent)
        ensures
            r@ == self@,
    {
        match self {
            AppEvent::Close => AppEvent::Close,
            AppEvent::ShowDialog(t, c) => AppEvent::ShowDialog(t.clone(), c.clone()),
            AppEvent::SetStatus(s) => AppEvent::SetStatus(s.clone()),
            AppEvent::SetWorkspace(w) => AppEvent::SetWorkspace(w.clone()),
        }
    }
}

/// A color as red, green and blue channels.
#[derive(Clone, Copy, Debug, PartialEq, Eq, Structural)]
pub struct Rgb {
    pub r: u8,
    pub g: u8,
    pub b: u8,
}

/// What css-color-parser reads from a color text: its red, green and blue
/// channels, or nothing when the text is not a color.
pub uninterp spec fn css_rgb(s: Seq<char>) -> Option<(u8, u8, u8)>;

/// Relies on css_color_parser's `FromStr` for `Color`, which depends on the
/// text alone; only the three color channels are kept.
#[verifier::external_body]
fn parse_css_rgb(s: &str) -> (r: Option<(u8, u8, u8)>)
    ensures
        r == css_rgb(s@),
{
    s.parse::<css_color_parser::Color>().ok().map(|c| (c.r, c.g, c.b))
}

pub open spec fn rgb_or_black_spec(parsed: Option<(u8, u8, u8)>) -> Rgb {
    match parsed {
        Some((r, g, b)) => Rgb { r, g, b },
        None => Rgb { r: 0, g: 0, b: 0 },
    }
}

/// The parsed channels as a color, black when nothing was parsed.
pub fn rgb_or_black(parsed: Option<(u8, u8, u8)>) -> (r: Rgb)
    ensures
        r == rgb_or_black_spec(parsed),
{
    match parsed {
        Some((r, g, b)) => Rgb { r, g, b },
        None => Rgb { r: 0, g: 0, b: 0 },
    }
}

/// True when `o` holds a string with the characters `s`.
pub open spec fn holds(o: Option<String>, s: Seq<char>) -> bool {
    o is Some && o.unwrap()@ == s
}

/// The colors of the interface, each as CSS color text.
pub struct Theme {
    pub status_bar_background: Option<String>,
    pub status_bar_foreground: Option<String>,
    pub explorer_background: Option<String>,
    pub explorer_selected_background: Option<String>,
    pub explorer_selected_foreground: Option<String>,
    pub explorer_directory_foreground: Option<String>,
    pub explorer_file_foreground: Option<String>,
    pub explorer_info_foreground: Option<String>,
    pub active_view_border: Option<String>,
    pub view_border: Option<String>,
    pub editor_background: Option<String>,
    pub commands_view_background: Option<String>,
    pub commands_view_foreground: Option<String>,
    pub explorer_hidden_foreground: Option<String>,
    pub app_background: Option<String>,
    pub app_foreground: Option<String>,
    pub status_error: Option<String>,
    pub status_warning: Option<String>,
    pub status_info: Option<String>,
}

fn some_text(s: &str) -> (r: Option<String>)
    ensures
        holds(r, s@),
{
    Some(String::from_str(s))
}

/// The values of the default theme.
pub open spec fn is_default_theme(t: Theme) -> bool {
    &&& holds(t.app_background, "#000000"@)
    &&& holds(t.app_foreground, "#0000FF"@)
    &&& holds(t.status_bar_background, "#0000ff"@)
    &&& holds(t.status_bar_foreground, "#FFFFFF"@)
    &&& holds(t.explorer_background, "#000000"@)
    &&& holds(t.explorer_selected_background, "#808080"@)
    &&& holds(t.explorer_selected_foreground, "#000000"@)
    &&& holds(t.explorer_directory_foreground, "#00FF00"@)
    &&& holds(t.explorer_file_foreground, "#0000FF"@)
    &&& holds(t.explorer_info_foreground, "#808080"@)
    &&& holds(t.explorer_hidden_foreground, "#808080"@)
    &&& holds(t.active_view_border, "#0084FF"@)
    &&& holds(t.view_border, "#FFFFFF"@)
    &&& holds(t.editor_background, "#000000"@)
    &&& holds(t.commands_view_background, "#000000"@)
    &&& holds(t.commands_view_foreground, "#FFFFFF"@)
    &&& holds(t.status_info, "#00FF00"@)
    &&& holds(t.status_warning, "FF9100"@)
    &&& holds(t.status_error, "#FF0000"@)
}

impl Default for Theme {
    fn default() -> (r: Theme)
        ensures
            is_default_theme(r),
    {
        Theme {
            app_background: some_text("#000000"),
            app_foreground: some_text("#0000FF"),
            status_bar_background: some_text("#0000ff"),
            status_bar_foreground: some_text("#FFFFFF"),
            explorer_background: some_text("#000000"),
            explorer_selected_background: some_text("#808080"),
            explorer_selected_foreground: some_text("#000000"),
            explorer_directory_foreground: some_text("#00FF00"),
            explorer_file_foreground: some_text("#0000FF"),
            explorer_info_foreground: some_text("#808080"),
            explorer_hidden_foreground: some_text("#808080"),
            active_view_border: some_text("#0084FF"),
            view_border: some_text("#FFFFFF"),
            editor_background: some_text("#000000"),
            commands_view_background: some_text("#000000"),
            commands_view_foreground: some_text("#FFFFFF"),
            status_info: some_text("#00FF00"),
            status_warning: some_text("FF9100"),
            status_error: some_text("#FF0000"),
        }
    }
}

impl Theme {
    /// The color that a theme entry names: `None` when the entry is unset,
    /// black when its text is not a CSS color.
    pub fn get_color_for(value: Option<String>) -> (r: Option<Rgb>)
        ensures
            r == match value {
                Some(c) => Some(rgb_or_black_spec(css_rgb(c@))),
                None => None,
            },
    {
        match value {
            Some(c) => Some(rgb_or_black(parse_css_rgb(c.as_str()))),
            None => None,
        }
    }
}

/// The user's configuration: where logs go and the theme.
pub struct Config {
    pub logs_directory: Option<String>,
    pub theme: Option<Theme>,
}

impl Default for Config {
    fn default() -> (r: Config)
        ensures
            holds(r.logs_directory, "~/.ledit/logs"@),
            r.theme is Some,
            is_default_theme(r.theme.unwrap()),
    {
        Config { logs_directory: some_text("~/.ledit/logs"), theme: Some(Theme::default()) }
    }
}

} // verus!
