use vstd::prelude::*;

use std::time::{Duration, SystemTime};

use crate::text::{digit_char, digit_str};

verus! {

/// User interface language.
#[derive(Debug, Clone, Copy, PartialEq, Eq, Structural)]
pub enum Language {
    En,
    Fr,
    Es,
    De,
    It,
    Pt,
    Ja,
    Zh,
    Ko,
}

impl Default for Language {
    fn default() -> (l: Self)
        ensures
            l == Language::En,
    {
        Language::En
    }
}

/// The locale code of a language.
pub open spec fn language_code(l: Language) -> &'static str {
    match l {
        Language::En => "en",
        Language::Fr => "fr",
        Language::Es => "es",
        Language::De => "de",
        Language::It => "it",
        Language::Pt => "pt",
        Language::Ja => "ja",
        Language::Zh => "zh",
        Language::Ko => "ko",
    }
}

/// A language's name in that language.
pub open spec fn language_display(l: Language) -> &'static str {
    match l {
        Language::En => "English",
        Language::Fr => "Français",
        Language::Es => "Español",
        Language::De => "Deutsch",
        Language::It => "Italiano",
        Language::Pt => "Português",
        Language::Ja => "日本語",
        Language::Zh => "中文（简体）",
        Language::Ko => "한국어",
    }
}

impl Language {
    /// Locale code used by the translation tables.
    pub fn code(self) -> (s: &'static str)
        ensures
            s@ == language_code(self)@,
    {
        match self {
            Language::En => "en",
            Language::Fr => "fr",
            Language::Es => "es",
            Language::De => "de",
            Language::It => "it",
            Language::Pt => "pt",
            Language::Ja => "ja",
            Language::Zh => "zh",
            Language::Ko => "ko",
        }
    }

    /// Name shown in the language picker, in the language itself.
    pub fn display(self) -> (s: &'static str)
        ensures
            s@ == language_display(self)@,
    {
        match self {
            Language::En => "English",
            Language::Fr => "Français",
            Language::Es => "Español",
            Language::De => "Deutsch",
            Language::It => "Italiano",
            Language::Pt => "Português",
            Language::Ja => "日本語",
            Language::Zh => "中文（简体）",
            Language::Ko => "한국어",
        }
    }

    /// Every language, in picker order.
    pub fn all() -> (v: Vec<Language>)
        ensures
            v@ == seq![
                Language::En,
                Language::Fr,
                Language::Es,
                Language::De,
                Language::It,
                Language::Pt,
                Language::Ja,
                Language::Zh,
                Language::Ko,
            ],
    {
        let v = vec![
            Language::En,
            Language::Fr,
            Language::Es,
            Language::De,
            Language::It,
            Language::Pt,
            Language::Ja,
            Language::Zh,
            Language::Ko,
        ];
        assert(v@ =~= seq![
            Language::En,
            Language::Fr,
            Language::Es,
            Language::De,
            Language::It,
            Language::Pt,
            Language::Ja,
            Language::Zh,
            Language::Ko,
        ]);
        v
    }
}

/// A keyboard shortcut: a key name with modifier flags.
#[derive(Debug, Clone)]
pub struct KeyBind {
    pub key: String,
    pub ctrl: bool,
    pub shift: bool,
    pub alt: bool,
}

/// How a shortcut is shown: the held modifiers in the order Ctrl, Alt, Shift,
/// then the key, joined by `+`.
pub open spec fn keybind_text(b: KeyBind) -> Seq<char> {
    (if b.ctrl {
        "Ctrl+"@
    } else {
        Seq::empty()
    }) + (if b.alt {
        "Alt+"@
    } else {
        Seq::empty()
    }) + (if b.shift {
        "Shift+"@
    } else {
        Seq::empty()
    }) + b.key@
}

impl KeyBind {
    /// `Ctrl` + `key`.
    pub fn ctrl(key: &str) -> (b: Self)
        ensures
            b.key@ == key@,
            b.ctrl,
            !b.shift,
            !b.alt,
    {
        KeyBind { key: key.to_owned(), ctrl: true, shift: false, alt: false }
    }

    /// `key` alone.
    pub fn bare(key: &str) -> (b: Self)
        ensures
            b.key@ == key@,
            !b.ctrl,
            !b.shift,
            !b.alt,
    {
        KeyBind { key: key.to_owned(), ctrl: false, shift: false, alt: false }
    }

    /// Human-readable form, e.g. `Ctrl+Shift+S`.
    pub fn display(&self) -> (s: String)
        ensures
            s@ == keybind_text(*self),
    {
        let mut s = String::new();
        if self.ctrl {
            s.append("Ctrl+");
        }
        if self.alt {
            s.append("Alt+");
        }
        if self.shift {
            s.append("Shift+");
        }
        s.append(self.key.as_str());
        assert(s@ =~= keybind_text(*self));
        s
    }

    /// Default shortcut for a new project: `Ctrl+N`.
    pub fn default_new_project() -> (b: Self)
        ensures
            b.key@ == "N"@,
            b.ctrl && !b.shift && !b.alt,
    {
        Self::ctrl("N")
    }

    /// Default shortcut for opening a project: `Ctrl+O`.
    pub fn default_open_project() -> (b: Self)
        ensures
            b.key@ == "O"@,
            b.ctrl && !b.shift && !b.alt,
    {
        Self::ctrl("O")
    }

    /// Default shortcut for saving the project: `Ctrl+S`.
    pub fn default_save_project() -> (b: Self)
        ensures
            b.key@ == "S"@,
            b.ctrl && !b.shift && !b.alt,
    {
        Self::ctrl("S")
    }

    /// Default shortcut for exporting: `Ctrl+P`.
    pub fn default_export() -> (b: Self)
        ensures
            b.key@ == "P"@,
            b.ctrl && !b.shift && !b.alt,
    {
        Self::ctrl("P")
    }

    /// Default shortcut for the animation preview: `P` alone.
    pub fn default_anim_preview() -> (b: Self)
        ensures
            b.key@ == "P"@,
            !b.ctrl && !b.shift && !b.alt,
    {
        Self::bare("P")
    }
}

/// The user-configurable shortcuts.
#[derive(Debug, Clone)]
pub struct Keybinds {
    pub new_project: KeyBind,
    pub open_project: KeyBind,
    pub save_project: KeyBind,
    pub export: KeyBind,
    pub anim_preview: KeyBind,
}

impl Default for Keybinds {
    fn default() -> (k: Self)
        ensures
            k.new_project.key@ == "N"@ && k.new_project.ctrl && !k.new_project.shift
                && !k.new_project.alt,
            k.open_project.key@ == "O"@ && k.open_project.ctrl && !k.open_project.shift
                && !k.open_project.alt,
            k.save_project.key@ == "S"@ && k.save_project.ctrl && !k.save_project.shift
                && !k.save_project.alt,
            k.export.key@ == "P"@ && k.export.ctrl && !k.export.shift && !k.export.alt,
            k.anim_preview.key@ == "P"@ && !k.anim_preview.ctrl && !k.anim_preview.shift
                && !k.anim_preview.alt,
    {
        Keybinds {
            new_project: KeyBind::default_new_project(),
            open_project: KeyBind::default_open_project(),
            save_project: KeyBind::default_save_project(),
            export: KeyBind::default_export(),
            anim_preview: KeyBind::default_anim_preview(),
        }
    }
}

/// A key press seen while a shortcut waits for its new key: Escape, or a key
/// with its name (none for keys that cannot be bound) and the modifiers held.
pub enum KeyPress {
    Escape,
    Key { name: Option<String>, ctrl: bool, shift: bool, alt: bool },
}

/// The shortcut the last bindable key among `presses` makes, if any.
pub open spec fn last_binding(presses: Seq<KeyPress>) -> Option<KeyBind>
    decreases presses.len(),
{
    if presses.len() == 0 {
        None
    } else {
        match presses.last() {
            KeyPress::Key { name: Some(key), ctrl, shift, alt } => Some(
                KeyBind { key, ctrl, shift, alt },
            ),
            _ => last_binding(presses.drop_last()),
        }
    }
}

/// Escape is among `presses`.
pub open spec fn has_escape(presses: Seq<KeyPress>) -> bool {
    exists|i: int| 0 <= i < presses.len() && #[trigger] presses[i] is Escape
}

/// The shortcuts with the one in slot `slot` (1 to 5: new project, open,
/// save, export, animation preview) replaced by `b`; any other slot changes
/// nothing.
pub open spec fn with_binding(k: Keybinds, slot: u8, b: KeyBind) -> Keybinds {
    if slot == 1 {
        Keybinds { new_project: b, ..k }
    } else if slot == 2 {
        Keybinds { open_project: b, ..k }
    } else if slot == 3 {
        Keybinds { save_project: b, ..k }
    } else if slot == 4 {
        Keybinds { export: b, ..k }
    } else if slot == 5 {
        Keybinds { anim_preview: b, ..k }
    } else {
        k
    }
}

/// Applies one frame's key presses to a shortcut capture. `slot` is the
/// shortcut waiting for a key (0 when none is; see `with_binding`). With a
/// capture running: Escape cancels it; the last bindable key then becomes the
/// shortcut of the slot still waiting, if any, and ends the capture. Returns
/// whether the shortcuts are to be saved, which is when a key was bound.
pub fn capture_keys(slot: &mut u8, binds: &mut Keybinds, presses: Vec<KeyPress>) -> (save: bool)
    ensures
        *old(slot) == 0 ==> *final(slot) == 0 && *final(binds) == *old(binds) && !save,
        *old(slot) != 0 ==> ({
            let waiting = if has_escape(presses@) {
                0u8
            } else {
                *old(slot)
            };
            match last_binding(presses@) {
                None => *final(slot) == waiting && *final(binds) == *old(binds) && !save,
                Some(b) => *final(slot) == 0 && *final(binds) == with_binding(*old(binds), waiting, b)
                    && save,
            }
        }),
{
    if *slot == 0 {
        return false;
    }
    let ghost all = presses@;
    let mut canceled = false;
    let mut captured: Option<KeyBind> = None;
    for p in it: presses.into_iter()
        invariant
            it.seq() == all,
            canceled == has_escape(all.take(it.index() as int)),
            captured == last_binding(all.take(it.index() as int)),
    {
        let ghost k = it.index() as int;
        assert(p == all[k]);
        assert(all.take(k + 1).drop_last() =~= all.take(k));
        assert(all.take(k + 1).last() == p);
        match p {
            KeyPress::Escape => {
                canceled = true;
                assert(all.take(k + 1)[k] is Escape);
            },
            KeyPress::Key { name, ctrl, shift, alt } => {
                if let Some(key) = name {
                    captured = Some(KeyBind { key, ctrl, shift, alt });
                }
            },
        }
        assert(canceled == has_escape(all.take(k + 1))) by {
            if has_escape(all.take(k + 1)) && !(all.take(k + 1)[k] is Escape) {
                let i = choose|i: int| 0 <= i < k + 1 && #[trigger] all.take(k + 1)[i] is Escape;
                assert(all.take(k)[i] is Escape);
            }
            if has_escape(all.take(k)) {
                let i = choose|i: int| 0 <= i < k && #[trigger] all.take(k)[i] is Escape;
                assert(all.take(k + 1)[i] is Escape);
            }
        }
    }
    assert(all.take(all.len() as int) =~= all);
    if canceled {
        *slot = 0;
    }
    match captured {
        Some(b) => {
            if *slot == 1 {
                binds.new_project = b;
            } else if *slot == 2 {
                binds.open_project = b;
            } else if *slot == 3 {
                binds.save_project = b;
            } else if *slot == 4 {
                binds.export = b;
            } else if *slot == 5 {
                binds.anim_preview = b;
            }
            *slot = 0;
            true
        },
        None => false,
    }
}

/// Severity of a log entry.
#[derive(Debug, Clone, Copy, PartialEq, Eq, Structural)]
pub enum LogLevel {
    Info,
    Warn,
    Error,
}

/// One line of the output log.
pub struct LogEntry {
    pub level: LogLevel,
    pub message: String,
    /// Wall-clock time of day (UTC) the entry was made, `HH:MM:SS`.
    pub time: String,
}

/// `n` (below 100) as two decimal digits.
pub open spec fn two_digits(n: int) -> Seq<char> {
    seq![digit_char(n / 10), digit_char(n % 10)]
}

/// `HH:MM:SS` for the time of day `secs` seconds after midnight of day 0.
pub open spec fn clock_text(secs: int) -> Seq<char> {
    two_digits((secs % 86400) / 3600) + ":"@ + two_digits((secs % 3600) / 60) + ":"@ + two_digits(
        secs % 60,
    )
}

/// Append `n` (below 100) as two digits.
fn push_two_digits(s: &mut String, n: u64)
    requires
        n < 100,
    ensures
        final(s)@ == old(s)@ + two_digits(n as int),
{
    s.append(digit_str(n / 10));
    s.append(digit_str(n % 10));
    assert(final(s)@ =~= old(s)@ + two_digits(n as int));
}

/// Format a count of seconds as the time of day `HH:MM:SS`.
pub fn format_clock(secs: u64) -> (s: String)
    ensures
        s@ == clock_text(secs as int),
{
    let h = (secs % 86400) / 3600;
    let m = (secs % 3600) / 60;
    let sec = secs % 60;
    let mut s = String::new();
    push_two_digits(&mut s, h);
    s.append(":");
    push_two_digits(&mut s, m);
    s.append(":");
    push_two_digits(&mut s, sec);
    assert(s@ =~= clock_text(secs as int));
    s
}

#[verifier::external_type_specification]
#[verifier::external_body]
pub struct ExSystemTime(std::time::SystemTime);

/// `std::time::SystemTime::now`. Nothing is claimed of the value: it is the clock.
#[verifier::external_body]
fn system_now() -> SystemTime {
    SystemTime::now()
}

/// `SystemTime::duration_since(UNIX_EPOCH)`, `None` for a time before the epoch.
/// Nothing is claimed of the value.
#[verifier::external_body]
fn since_epoch(t: &SystemTime) -> Option<Duration> {
    t.duration_since(std::time::UNIX_EPOCH).ok()
}

/// `Duration::as_secs`: the whole seconds of the duration. Nothing is claimed of
/// the value: `Duration` is opaque here.
#[verifier::external_body]
fn whole_secs(d: &Duration) -> u64 {
    d.as_secs()
}

/// The current wall-clock time of day (UTC) as `HH:MM:SS`.
pub fn format_time() -> (s: String)
    ensures
        exists|secs: u64| s@ == clock_text(secs as int),
{
    let now = system_now();
    let secs = match since_epoch(&now) {
        Some(d) => whole_secs(&d),
        None => 0,
    };
    format_clock(secs)
}

impl LogEntry {
    /// An informational entry stamped with the current time.
    pub fn info(msg: String) -> (e: Self)
        ensures
            e.level == LogLevel::Info,
            e.message == msg,
            exists|secs: u64| e.time@ == clock_text(secs as int),
    {
        LogEntry { level: LogLevel::Info, message: msg, time: format_time() }
    }

    /// A warning entry stamped with the current time.
    pub fn warn(msg: String) -> (e: Self)
        ensures
            e.level == LogLevel::Warn,
            e.message == msg,
            exists|secs: u64| e.time@ == clock_text(secs as int),
    {
        LogEntry { level: LogLevel::Warn, message: msg, time: format_time() }
    }

    /// An error entry stamped with the current time.
    pub fn error(msg: String) -> (e: Self)
        ensures
            e.level == LogLevel::Error,
            e.message == msg,
            exists|secs: u64| e.time@ == clock_text(secs as int),
    {
        LogEntry { level: LogLevel::Error, message: msg, time: format_time() }
    }
}

/// Actions requested by menus, toolbar or shortcuts, handled on the next frame.
#[derive(Debug, Clone, Copy, PartialEq, Eq, Structural)]
pub struct PendingActions {
    pub pack: bool,
    pub export: bool,
    pub new_project: bool,
    pub open_project: bool,
    pub save_project: bool,
    pub save_project_as: bool,
    pub add_source: bool,
    pub open_prefs: bool,
    pub rebuild_watcher: bool,
}

impl Default for PendingActions {
    fn default() -> (p: Self)
        ensures
            p == (PendingActions {
                pack: false,
                export: false,
                new_project: false,
                open_project: false,
                save_project: false,
                save_project_as: false,
                add_source: false,
                open_prefs: false,
                rebuild_watcher: false,
            }),
    {
        PendingActions {
            pack: false,
            export: false,
            new_project: false,
            open_project: false,
            save_project: false,
            save_project_as: false,
            add_source: false,
            open_prefs: false,
            rebuild_watcher: false,
        }
    }
}

/// Which of the five shortcuts had its key combination pressed this frame.
#[derive(Debug, Clone, Copy, PartialEq, Eq, Structural)]
pub struct ShortcutHits {
    pub new_project: bool,
    pub open_project: bool,
    pub save_project: bool,
    pub export: bool,
    pub anim_preview: bool,
}

/// One frame of keyboard shortcuts. While a shortcut waits for a new key
/// (`capturing`) none of them acts. Otherwise new project, open and save are
/// requested when pressed; export only when no pack is running; the animation
/// preview toggles (the returned flag) only when at least two frames are selected
/// and the sheet has frames.
pub fn apply_shortcuts(
    pending: &mut PendingActions,
    hits: ShortcutHits,
    capturing: bool,
    packing: bool,
    selected_frames: usize,
    frame_count: usize,
) -> (toggle_preview: bool)
    ensures
        capturing ==> *final(pending) == *old(pending) && !toggle_preview,
        !capturing ==> *final(pending) == (PendingActions {
            new_project: old(pending).new_project || hits.new_project,
            open_project: old(pending).open_project || hits.open_project,
            save_project: old(pending).save_project || hits.save_project,
            export: old(pending).export || (hits.export && !packing),
            ..*old(pending)
        }),
        !capturing ==> toggle_preview == (hits.anim_preview && selected_frames >= 2 && frame_count > 0),
{
    if capturing {
        return false;
    }
    if hits.new_project {
        pending.new_project = true;
    }
    if hits.open_project {
        pending.open_project = true;
    }
    if hits.save_project {
        pending.save_project = true;
    }
    if hits.export && !packing {
        pending.export = true;
    }
    hits.anim_preview && selected_frames >= 2 && frame_count > 0
}

/// One playback tick of the animation preview over `n` frames: the next frame,
/// wrapping to the first when `looping`, else stopping on the last. Returns the
/// frame and whether playback goes on.
pub fn advance_frame(cur: usize, n: usize, looping: bool) -> (r: (usize, bool))
    requires
        n > 0,
        cur < usize::MAX,
    ensures
        cur + 1 < n ==> r.0 == cur + 1 && r.1,
        cur + 1 >= n && looping ==> r.0 == 0 && r.1,
        cur + 1 >= n && !looping ==> r.0 == n - 1 && !r.1,
        r.0 < n,
{
    let next = cur + 1;
    if next >= n {
        if looping {
            (0, true)
        } else {
            (n - 1, false)
        }
    } else {
        (next, true)
    }
}

/// The frame shown after a step button: forward wraps past the last frame to the
/// first; back stops at the first.
pub fn step_frame(cur: usize, n: usize, forward: bool) -> (r: usize)
    requires
        forward ==> cur < usize::MAX,
    ensures
        forward ==> r == (if cur + 1 >= n {
            0int
        } else {
            cur + 1
        }),
        !forward ==> r == (if cur == 0 {
            0int
        } else {
            cur - 1
        }),
        cur < n ==> r < n,
{
    if forward {
        let next = cur + 1;
        if next >= n {
            0
        } else {
            next
        }
    } else {
        cur.saturating_sub(1)
    }
}

/// The frame index kept within `n` frames: past the end it becomes the last frame.
pub fn clamp_frame(cur: usize, n: usize) -> (r: usize)
    requires
        n > 0,
    ensures
        r == (if cur >= n {
            n - 1
        } else {
            cur as int
        }),
        r < n,
{
    if cur >= n {
        n - 1
    } else {
        cur
    }
}

} // verus!
