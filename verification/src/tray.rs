//! The system tray: its menu labels, the slot that holds the live tray icon,
//! and what menu and click events on it ask for.
use vstd::prelude::*;

use crate::text::same_text;

verus! {

/// What activating an entry of the tray menu asks for.
#[derive(Clone, Copy, Debug, PartialEq, Eq, Structural)]
pub enum TrayAction {
    /// Bring the main window back.
    Show,
    /// Shut the application down.
    Quit,
}

/// The mouse button of a click on the tray icon.
#[derive(Clone, Copy, Debug, PartialEq, Eq, Structural)]
pub enum ClickButton {
    Left,
    Right,
    Middle,
}

/// Whether the button of a click on the tray icon went down or came up.
#[derive(Clone, Copy, Debug, PartialEq, Eq, Structural)]
pub enum ClickState {
    Up,
    Down,
}

/// The labels of the "show" and "quit" menu entries for a UI language.
pub open spec fn spec_localized_labels(language: Seq<char>) -> (Seq<char>, Seq<char>) {
    if language == "zh_CN"@ {
        ("显示窗口"@, "退出"@)
    } else if language == "zh_TW"@ {
        ("顯示視窗"@, "退出"@)
    } else {
        ("Show"@, "Quit"@)
    }
}

/// Localised labels for the tray context menu, picked from the active UI
/// language so the tray matches the rest of the interface.
pub fn localized_labels(language: &str) -> (r: (&'static str, &'static str))
    ensures
        (r.0@, r.1@) == spec_localized_labels(language@),
        language@ == "zh_CN"@ ==> r.0@ == "显示窗口"@ && r.1@ == "退出"@,
        language@ == "zh_TW"@ ==> r.0@ == "顯示視窗"@ && r.1@ == "退出"@,
        language@ != "zh_CN"@ && language@ != "zh_TW"@ ==> r.0@ == "Show"@ && r.1@ == "Quit"@,
{
    proof {
        reveal_strlit("zh_CN");
        reveal_strlit("zh_TW");
        assert("zh_CN"@[3] != "zh_TW"@[3]);
    }
    if same_text(language, "zh_CN") {
        ("显示窗口", "退出")
    } else if same_text(language, "zh_TW") {
        ("顯示視窗", "退出")
    } else {
        ("Show", "Quit")
    }
}

/// The live tray icon together with the ids of the menu entries that
/// incoming menu events are matched against.
pub struct TrayState<I> {
    _icon: I,
    show_item_id: String,
    quit_item_id: String,
}

/// The place where the tray icon lives while it exists.  Dropping the icon
/// removes it from the system tray.
pub struct TraySlot<I> {
    state: Option<TrayState<I>>,
}

impl<I> View for TraySlot<I> {
    /// The ids of the "show" and "quit" entries of the tray that exists, if one does.
    type V = Option<(Seq<char>, Seq<char>)>;

    closed spec fn view(&self) -> Option<(Seq<char>, Seq<char>)> {
        match self.state {
            Some(s) => Some((s.show_item_id@, s.quit_item_id@)),
            None => None,
        }
    }
}

/// What a menu event with entry id `id` asks for, given the ids of the tray that exists.
pub open spec fn spec_menu_action(tray: Option<(Seq<char>, Seq<char>)>, id: Seq<char>) -> Option<
    TrayAction,
> {
    match tray {
        Some((show_id, quit_id)) => if id == show_id {
            Some(TrayAction::Show)
        } else if id == quit_id {
            Some(TrayAction::Quit)
        } else {
            None
        },
        None => None,
    }
}

/// An operation on the tray slot, for stating laws over histories of them.
pub enum TrayOp {
    /// A tray built with the given "show" and "quit" entry ids is kept.
    Install(Seq<char>, Seq<char>),
    /// The tray is removed.
    Destroy,
}

/// The ids of the tray that exists after `op`, given those before it.
pub open spec fn tray_step(before: Option<(Seq<char>, Seq<char>)>, op: TrayOp) -> Option<
    (Seq<char>, Seq<char>),
> {
    match op {
        TrayOp::Install(show_id, quit_id) => Some((show_id, quit_id)),
        TrayOp::Destroy => None,
    }
}

/// The ids of the tray that exists after the operations `ops`, starting from
/// an empty slot.
pub open spec fn tray_after(ops: Seq<TrayOp>) -> Option<(Seq<char>, Seq<char>)>
    decreases ops.len(),
{
    if ops.len() == 0 {
        None
    } else {
        tray_step(tray_after(ops.drop_last()), ops.last())
    }
}

/// After a history of operations a tray exists exactly when some operation
/// installed one and no destroy came after it; its ids are those of the last
/// install.
pub proof fn lemma_tray_history(ops: Seq<TrayOp>)
    ensures
        tray_after(ops) is Some <==> exists|i: int|
            0 <= i < ops.len() && (#[trigger] ops[i]) is Install && forall|j: int|
                i < j < ops.len() ==> !(#[trigger] ops[j] is Destroy),
        ops.len() > 0 ==> (ops.last() matches TrayOp::Install(s, q) ==> tray_after(ops) == Some(
            (s, q),
        )),
    decreases ops.len(),
{
    if ops.len() > 0 {
        let init = ops.drop_last();
        lemma_tray_history(init);
        let n = ops.len() - 1;
        if ops.last() is Install {
            assert(ops[n] is Install);
        } else {
            assert(ops[n] is Destroy);
            assert forall|i: int|
                0 <= i < ops.len() && (#[trigger] ops[i]) is Install implies !(forall|j: int|
                i < j < ops.len() ==> !(#[trigger] ops[j] is Destroy)) by {
                assert(i < n);
                assert(ops[n] is Destroy);
            }
        }
        assert forall|i: int|
            0 <= i < init.len() && (#[trigger] init[i]) is Install && (forall|j: int|
                i < j < init.len() ==> !(#[trigger] init[j] is Destroy)) && ops.last() is Install
            implies (ops[i] is Install && forall|j: int|
            i < j < ops.len() ==> !(#[trigger] ops[j] is Destroy)) by {
            assert forall|j: int| i < j < ops.len() implies !(#[trigger] ops[j] is Destroy) by {
                if j < n {
                    assert(ops[j] == init[j]);
                }
            }
        }
    }
}

impl<I> TraySlot<I> {
    /// The icon held while a tray exists.
    pub closed spec fn held_icon(&self) -> Option<I> {
        match self.state {
            Some(s) => Some(s._icon),
            None => None,
        }
    }

    /// A slot that holds no tray icon.
    pub fn new() -> (r: Self)
        ensures
            r@ is None,
            r@ == tray_after(Seq::<TrayOp>::empty()),
            r.held_icon() is None,
    {
        TraySlot { state: None }
    }
}

/// Whether a tray icon is currently active.
pub fn is_created<I>(slot: &TraySlot<I>) -> (r: bool)
    ensures
        r == slot@ is Some,
{
    slot.state.is_some()
}

/// Remove the tray icon if it exists.  Dropping the icon removes it from the
/// system tray.
pub fn destroy<I>(slot: &mut TraySlot<I>)
    ensures
        final(slot)@ is None,
        final(slot)@ == tray_step(old(slot)@, TrayOp::Destroy),
        final(slot).held_icon() is None,
{
    slot.state = None;
}

/// Keep a newly built tray icon, with the ids of its "show" and "quit" entries.
pub fn install<I>(slot: &mut TraySlot<I>, icon: I, show_item_id: String, quit_item_id: String)
    ensures
        final(slot)@ == Some((show_item_id@, quit_item_id@)),
        final(slot)@ == tray_step(old(slot)@, TrayOp::Install(show_item_id@, quit_item_id@)),
        final(slot).held_icon() == Some(icon),
{
    slot.state = Some(TrayState { _icon: icon, show_item_id, quit_item_id });
}

/// What a menu event with entry id `id` asks for: the "show" entry shows the
/// window, the "quit" entry quits, anything else (or an event while no tray
/// exists) asks for nothing.
pub fn menu_action<I>(slot: &TraySlot<I>, id: &str) -> (r: Option<TrayAction>)
    ensures
        r == spec_menu_action(slot@, id@),
        slot@ is None ==> r is None,
        slot@ matches Some((show_id, quit_id)) ==> {
            &&& id@ == show_id ==> r == Some(TrayAction::Show)
            &&& id@ != show_id && id@ == quit_id ==> r == Some(TrayAction::Quit)
            &&& id@ != show_id && id@ != quit_id ==> r is None
        },
{
    match &slot.state {
        Some(s) => {
            if same_text(id, s.show_item_id.as_str()) {
                Some(TrayAction::Show)
            } else if same_text(id, s.quit_item_id.as_str()) {
                Some(TrayAction::Quit)
            } else {
                None
            }
        },
        None => None,
    }
}

/// A tray created with entry ids `show_id` and `quit_id` routes its "show"
/// entry to showing the window, its "quit" entry (when its id differs) to
/// quitting, and any other id to nothing; once destroyed it routes nothing.
pub proof fn lemma_tray_menu_routing(show_id: Seq<char>, quit_id: Seq<char>, id: Seq<char>)
    ensures
        spec_menu_action(Some((show_id, quit_id)), show_id) == Some(TrayAction::Show),
        quit_id != show_id ==> spec_menu_action(Some((show_id, quit_id)), quit_id) == Some(
            TrayAction::Quit,
        ),
        id != show_id && id != quit_id ==> spec_menu_action(Some((show_id, quit_id)), id)
            is None,
        spec_menu_action(None, id) is None,
{
}

/// An event on the tray icon.
#[derive(Clone, Copy, Debug, PartialEq, Eq, Structural)]
pub enum TrayEvent {
    /// A click: its button, and whether the button went down or came up.
    Click { button: ClickButton, state: ClickState },
    /// A double click with a button.
    DoubleClick { button: ClickButton },
    /// The pointer entered the icon.
    Enter,
    /// The pointer moved over the icon.
    Move,
    /// The pointer left the icon.
    Leave,
}

/// Whether an event on the tray icon brings the window back: only a left
/// click, on release.  Every other event does nothing; the menu stays
/// reachable by a right click.
pub fn event_shows_window(event: TrayEvent) -> (r: bool)
    ensures
        r == (event == TrayEvent::Click { button: ClickButton::Left, state: ClickState::Up }),
{
    match event {
        TrayEvent::Click { button, state } => button == ClickButton::Left && state
            == ClickState::Up,
        _ => false,
    }
}

/// An entry of the tray's context menu.
#[derive(Clone, Copy, Debug, PartialEq, Eq)]
pub enum TrayMenuEntry {
    /// A menu item: what activating it asks for, its label, and whether it is enabled.
    Item { action: TrayAction, label: &'static str, enabled: bool },
    /// A separator line.
    Separator,
}

/// How the tray is built: its menu entries from top to bottom, its tooltip,
/// and whether a left click opens the menu.
pub struct TrayLayout {
    pub entries: Vec<TrayMenuEntry>,
    pub tooltip: &'static str,
    pub menu_on_left_click: bool,
}

/// Whether `entry` is an enabled item with this action and label.
pub open spec fn is_enabled_item(entry: TrayMenuEntry, action: TrayAction, label: Seq<char>) -> bool {
    entry matches TrayMenuEntry::Item { action: a, label: l, enabled } && a == action && l@
        == label && enabled
}

/// The tray's layout for a UI language: an enabled "show" item, a separator,
/// an enabled "quit" item, labelled for the language; the tooltip
/// "WebSocket Reflector X"; and a left click that does not open the menu.
pub open spec fn is_tray_layout(layout: TrayLayout, language: Seq<char>) -> bool {
    &&& layout.entries@.len() == 3
    &&& is_enabled_item(
        layout.entries@[0],
        TrayAction::Show,
        spec_localized_labels(language).0,
    )
    &&& layout.entries@[1] is Separator
    &&& is_enabled_item(
        layout.entries@[2],
        TrayAction::Quit,
        spec_localized_labels(language).1,
    )
    &&& layout.tooltip@ == "WebSocket Reflector X"@
    &&& !layout.menu_on_left_click
}

/// Whatever the language, the tray's layout has an enabled item that shows
/// the window, then a separator, then an enabled item that quits, labelled
/// as the language's labels say; its tooltip is "WebSocket Reflector X"; and
/// a left click never opens its menu.
pub proof fn lemma_tray_layout_shape(layout: TrayLayout, language: Seq<char>)
    requires
        is_tray_layout(layout, language),
    ensures
        !layout.menu_on_left_click,
        layout.tooltip@ == "WebSocket Reflector X"@,
        layout.entries@.len() == 3,
        layout.entries@[0] matches TrayMenuEntry::Item { action, label, enabled } && action
            == TrayAction::Show && label@ == spec_localized_labels(language).0 && enabled,
        layout.entries@[1] is Separator,
        layout.entries@[2] matches TrayMenuEntry::Item { action, label, enabled } && action
            == TrayAction::Quit && label@ == spec_localized_labels(language).1 && enabled,
{
}

/// The labels are Simplified Chinese for `zh_CN`, Traditional Chinese for
/// `zh_TW`, and English for every other language.
pub proof fn lemma_localized_labels(language: Seq<char>)
    ensures
        language == "zh_CN"@ ==> spec_localized_labels(language) == ("显示窗口"@, "退出"@),
        language == "zh_TW"@ ==> spec_localized_labels(language) == ("顯示視窗"@, "退出"@),
        language != "zh_CN"@ && language != "zh_TW"@ ==> spec_localized_labels(language) == (
            "Show"@,
            "Quit"@,
        ),
{
    reveal_strlit("zh_CN");
    reveal_strlit("zh_TW");
    assert("zh_CN"@[3] != "zh_TW"@[3]);
}

/// The tray's layout for a UI language: "show", a separator and "quit",
/// labelled for the language and enabled; the tooltip "WebSocket Reflector
/// X"; a left click brings the window back instead of opening the menu, which
/// stays reachable by a right click.
pub fn tray_layout(language: &str) -> (r: TrayLayout)
    ensures
        is_tray_layout(r, language@),
        !r.menu_on_left_click,
        r.tooltip@ == "WebSocket Reflector X"@,
        r.entries@.len() == 3,
        r.entries@[0] matches TrayMenuEntry::Item { action, label, enabled } && action
            == TrayAction::Show && label@ == spec_localized_labels(language@).0 && enabled,
        r.entries@[1] is Separator,
        r.entries@[2] matches TrayMenuEntry::Item { action, label, enabled } && action
            == TrayAction::Quit && label@ == spec_localized_labels(language@).1 && enabled,
{
    let (show_label, quit_label) = localized_labels(language);
    let mut entries: Vec<TrayMenuEntry> = Vec::new();
    entries.push(TrayMenuEntry::Item { action: TrayAction::Show, label: show_label, enabled: true });
    entries.push(TrayMenuEntry::Separator);
    entries.push(TrayMenuEntry::Item { action: TrayAction::Quit, label: quit_label, enabled: true });
    TrayLayout { entries, tooltip: "WebSocket Reflector X", menu_on_left_click: false }
}

/// The layout of a tray about to be created, or `None` when a tray already
/// exists and creating one is a no-op.
pub fn layout_for_new_tray<I>(slot: &TraySlot<I>, language: &str) -> (r: Option<TrayLayout>)
    ensures
        r is None <==> slot@ is Some,
        r matches Some(l) ==> is_tray_layout(l, language@),
        r matches Some(l) ==> !l.menu_on_left_click,
{
    if is_created(slot) {
        None
    } else {
        Some(tray_layout(language))
    }
}

/// An image decoded to 8-bit RGBA: `rgba` holds the pixels row by row, four
/// bytes each.
pub struct RgbaPixels {
    pub rgba: Vec<u8>,
    pub width: u32,
    pub height: u32,
}

/// What `image::load_from_memory_with_format` with the PNG format, followed by
/// `to_rgba8`, makes of encoded bytes: the RGBA bytes, width and height of the
/// image, or `None` when the bytes are not a PNG image the decoder reads.
pub uninterp spec fn decoded_rgba(bytes: Seq<u8>) -> Option<(Seq<u8>, u32, u32)>;

/// Decodes `bytes` as PNG with `image::load_from_memory_with_format` and
/// converts the image with `DynamicImage::to_rgba8`.  With a built-in format
/// set, the reader neither guesses the format nor consults the decoding hooks
/// that code elsewhere in the process may register, so the contract claims
/// that the result is a function of the bytes alone.  Of the decoded pixels it
/// claims only their number: the decoders fill a buffer of exactly
/// width × height pixels and the RGBA conversion keeps that size, four bytes
/// a pixel.  The PNG decoder is the only one this crate is
/// built with, so the format-guessing loader fails on the same inputs.
#[verifier::external_body]
fn decode_rgba(bytes: &[u8]) -> (r: Option<RgbaPixels>)
    ensures
        r matches Some(p) ==> decoded_rgba(bytes@) == Some((p.rgba@, p.width, p.height)),
        r matches Some(p) ==> p.rgba@.len() == 4 * p.width * p.height,
        r is None ==> decoded_rgba(bytes@) is None,
{
    match image::load_from_memory_with_format(bytes, image::ImageFormat::Png) {
        Ok(img) => {
            let rgba = img.to_rgba8();
            let (width, height) = rgba.dimensions();
            Some(RgbaPixels { rgba: rgba.into_raw(), width, height })
        },
        Err(_) => None,
    }
}

/// The pixels of the tray icon, decoded from the bundled PNG logo: `None` when
/// the logo does not decode, and the tray is then created without a custom icon.
pub fn load_icon_pixels(bytes: &[u8]) -> (r: Option<RgbaPixels>)
    ensures
        r matches Some(p) ==> decoded_rgba(bytes@) == Some((p.rgba@, p.width, p.height)),
        r matches Some(p) ==> p.rgba@.len() == 4 * p.width * p.height,
        r is None <==> decoded_rgba(bytes@) is None,
{
    decode_rgba(bytes)
}

} // verus!
