//! The tray's state, how it follows the driver, and the menu it offers.

use vstd::prelude::*;

use crate::text::{decimal, push_decimal};

use crate::sysfs::LED_BRIGHTNESS_DEFAULT;

verus! {

/// A controller LED: its sysfs directory and that directory's name.
#[derive(Debug)]
pub struct Led {
    pub path: String,
    pub name: String,
}

/// What one look at the driver found: whether the pairing attribute is
/// writable, the pairing setting and the number of connected controllers
/// (`None` where the read failed), and the controller LEDs.
#[derive(Debug)]
pub struct Snapshot {
    pub can_write: bool,
    pub pairing: Option<bool>,
    pub clients: Option<u32>,
    pub leds: Vec<Led>,
}

/// How often, in seconds, the tray looks at the driver again, so that it
/// follows changes made elsewhere.
pub const REFRESH_SECONDS: u64 = 3;

/// The tray's view of the dongle.
#[derive(Debug)]
pub struct XoneTray {
    pub pairing: bool,
    pub clients: u32,
    pub leds: Vec<Led>,
    pub can_write: bool,
}

/// The value read when there is one, else `keep`.
pub open spec fn or_keep<T>(read: Option<T>, keep: T) -> T {
    match read {
        Some(v) => v,
        None => keep,
    }
}

impl XoneTray {
    /// A tray that starts from pairing off and no controllers, brought up
    /// to date with `snapshot`.
    pub fn new(snapshot: Snapshot) -> (t: Self)
        ensures
            t.can_write == snapshot.can_write,
            t.pairing == or_keep(snapshot.pairing, false),
            t.clients == or_keep(snapshot.clients, 0),
            t.leds == snapshot.leds,
    {
        let mut t = XoneTray { pairing: false, clients: 0, leds: Vec::new(), can_write: false };
        t.refresh(snapshot);
        t
    }

    /// Brings the state up to date with `snapshot`: a pairing setting or a
    /// controller count that could not be read keeps its last known value.
    pub fn refresh(&mut self, snapshot: Snapshot)
        ensures
            final(self).can_write == snapshot.can_write,
            final(self).pairing == or_keep(snapshot.pairing, old(self).pairing),
            final(self).clients == or_keep(snapshot.clients, old(self).clients),
            final(self).leds == snapshot.leds,
    {
        self.can_write = snapshot.can_write;
        if let Some(v) = snapshot.pairing {
            self.pairing = v;
        }
        if let Some(v) = snapshot.clients {
            self.clients = v;
        }
        self.leds = snapshot.leds;
    }

    /// The pairing setting that the pairing menu entry asks for.
    pub fn pairing_target(&self) -> (r: bool)
        ensures
            r == !self.pairing,
    {
        !self.pairing
    }

    /// Records the outcome of writing the pairing setting `value`: the
    /// state follows it only when the write succeeded.
    pub fn pairing_written(&mut self, value: bool, write_ok: bool)
        ensures
            final(self).pairing == (if write_ok {
                value
            } else {
                old(self).pairing
            }),
            final(self).clients == old(self).clients,
            final(self).can_write == old(self).can_write,
            final(self).leds == old(self).leds,
    {
        if write_ok {
            self.pairing = value;
        }
    }

    /// The tray's identifier.
    pub fn id(&self) -> (r: String)
        ensures
            r@ == "xone-tray"@,
    {
        String::from_str("xone-tray")
    }

    /// The themed icon the tray shows.
    pub fn icon_name(&self) -> (r: String)
        ensures
            r@ == "input-gaming"@,
    {
        String::from_str("input-gaming")
    }

    /// The tooltip title: the pairing setting and the controller count.
    pub fn title(&self) -> (r: String)
        ensures
            r@ == title_text(self.pairing, self.clients),
    {
        let mut s = String::from_str("xone - pairing ");
        if self.pairing {
            s.append("ON");
        } else {
            s.append("off");
        }
        s.append(" | ");
        push_decimal(&mut s, self.clients);
        s.append(" connected");
        assert(s@ =~= title_text(self.pairing, self.clients));
        s
    }
}

/// The tooltip title for a pairing setting and a controller count.
pub open spec fn title_text(pairing: bool, clients: u32) -> Seq<char> {
    "xone - pairing "@ + (if pairing {
        "ON"@
    } else {
        "off"@
    }) + " | "@ + decimal(clients as nat) + " connected"@
}


/// What activating a menu entry does.
#[derive(Debug)]
pub enum Action {
    /// Switch pairing to the opposite of the tray's current setting.
    TogglePairing,
    /// Power off one client, or all of them (-1).
    PowerOff(i32),
    /// Give the LED at `path` the brightness `brightness`; for the levels
    /// above off (`custom_mode`), switch it to the custom mode first.
    SetLed { path: String, brightness: u32, custom_mode: bool },
    /// Install the udev rule with administrator rights.
    InstallUdevRule,
    /// Leave the program.
    Quit,
}

/// A plain menu entry.
#[derive(Debug)]
pub struct Entry {
    pub label: String,
    pub enabled: bool,
    pub action: Option<Action>,
}

/// An item of a submenu.
#[derive(Debug)]
pub enum SubItem {
    Entry(Entry),
    SubMenu { label: String, entries: Vec<Entry> },
}

/// An item of the tray's menu.
#[derive(Debug)]
pub enum MenuItem {
    Checkmark { label: String, enabled: bool, checked: bool, action: Action },
    Entry(Entry),
    SubMenu { label: String, items: Vec<SubItem> },
    Separator,
}

/// A brightness level offered for each LED.
#[derive(Debug, Clone, Copy, PartialEq, Eq, Structural)]
pub enum LedLevel {
    Off,
    Low,
    Medium,
    High,
}

/// The brightness of a level for an LED whose maximum is `max_b`: off is
/// 0, low a quarter and medium half of the maximum (at least 1), high three
/// quarters of it (the full maximum is never written).
pub open spec fn level_brightness_spec(level: LedLevel, max_b: u32) -> int {
    match level {
        LedLevel::Off => 0,
        LedLevel::Low => if max_b / 4 >= 1 {
            (max_b / 4) as int
        } else {
            1
        },
        LedLevel::Medium => if max_b / 2 >= 1 {
            (max_b / 2) as int
        } else {
            1
        },
        LedLevel::High => (max_b * 3) / 4,
    }
}

/// The brightness of `level` for an LED whose maximum is `max_b`.
pub fn level_brightness(level: LedLevel, max_b: u32) -> (r: u32)
    ensures
        r == level_brightness_spec(level, max_b),
{
    match level {
        LedLevel::Off => 0,
        LedLevel::Low => if max_b / 4 >= 1 {
            max_b / 4
        } else {
            1
        },
        LedLevel::Medium => if max_b / 2 >= 1 {
            max_b / 2
        } else {
            1
        },
        LedLevel::High => {
            let high = (max_b as u64) * 3 / 4;
            high as u32
        },
    }
}

/// Whether `e` is a plain entry with this label, state and action.
pub open spec fn entry_is(e: Entry, label: Seq<char>, enabled: bool, action: Option<Action>) -> bool {
    e.label@ == label && e.enabled == enabled && e.action == action
}

/// Whether `item` is a plain submenu entry with this label, state and action.
pub open spec fn sub_entry_is(
    item: SubItem,
    label: Seq<char>,
    enabled: bool,
    action: Option<Action>,
) -> bool {
    item matches SubItem::Entry(e) && entry_is(e, label, enabled, action)
}

/// Whether `item` is a plain top-level entry with this label, state and action.
pub open spec fn item_is_entry(
    item: MenuItem,
    label: Seq<char>,
    enabled: bool,
    action: Option<Action>,
) -> bool {
    item matches MenuItem::Entry(e) && entry_is(e, label, enabled, action)
}

/// The label of the entry that powers off the controller at `index`
/// (counted from 1 for people).
pub open spec fn controller_label(index: int) -> Seq<char> {
    "Controller "@ + decimal((index + 1) as nat)
}

/// Whether `item` is the power-off submenu for `clients` controllers: all of
/// them first (-1), then each by its index.
pub open spec fn is_power_off_menu(item: MenuItem, clients: u32) -> bool {
    item matches MenuItem::SubMenu { label, items } && label@ == "Power off…"@ && items@.len()
        == clients + 1 && sub_entry_is(
        items@[0],
        "All controllers"@,
        true,
        Some(Action::PowerOff(-1i32)),
    ) && forall|j: int|
        1 <= j <= clients ==> sub_entry_is(
            #[trigger] items@[j],
            controller_label(j - 1),
            true,
            Some(Action::PowerOff((j - 1) as i32)),
        )
}

/// Whether `e` is the entry that sets the LED `led` to a level.
pub open spec fn is_level_entry(
    e: Entry,
    label: Seq<char>,
    led: Led,
    brightness: int,
    custom_mode: bool,
) -> bool {
    &&& e.label@ == label
    &&& e.enabled
    &&& e.action matches Some(Action::SetLed { path, brightness: b, custom_mode: c })
    &&& path@ == led.path@
    &&& b == brightness
    &&& c == custom_mode
}

/// Whether `item` is the submenu of the LED `led` whose maximum brightness
/// is `max_b`: off, low, medium, high.
pub open spec fn is_led_submenu(item: SubItem, led: Led, max_b: u32) -> bool {
    item matches SubItem::SubMenu { label, entries } && label@ == led.name@ && entries@.len() == 4
        && is_level_entry(
        entries@[0],
        "Off"@,
        led,
        level_brightness_spec(LedLevel::Off, max_b),
        false,
    ) && is_level_entry(
        entries@[1],
        "Low"@,
        led,
        level_brightness_spec(LedLevel::Low, max_b),
        true,
    ) && is_level_entry(
        entries@[2],
        "Medium"@,
        led,
        level_brightness_spec(LedLevel::Medium, max_b),
        true,
    ) && is_level_entry(
        entries@[3],
        "High"@,
        led,
        level_brightness_spec(LedLevel::High, max_b),
        true,
    )
}

/// Whether `item` is the LED submenu: one submenu per LED, in order.
pub open spec fn is_leds_menu(item: MenuItem, leds: Seq<Led>, max_b: Seq<u32>) -> bool {
    item matches MenuItem::SubMenu { label, items } && label@ == "LEDs"@ && items@.len()
        == leds.len() && forall|k: int|
        0 <= k < leds.len() ==> is_led_submenu(#[trigger] items@[k], leds[k], max_b[k])
}

/// A plain entry.
fn entry(label: &str, enabled: bool, action: Option<Action>) -> (e: Entry)
    ensures
        e.label@ == label@,
        e.enabled == enabled,
        e.action == action,
{
    Entry { label: String::from_str(label), enabled, action }
}

/// The power-off submenu for `clients` controllers.
fn power_off_menu(clients: u32) -> (item: MenuItem)
    ensures
        is_power_off_menu(item, clients),
{
    let mut items: Vec<SubItem> = Vec::new();
    items.push(SubItem::Entry(entry("All controllers", true, Some(Action::PowerOff(-1i32)))));
    let mut i: u32 = 0;
    while i < clients
        invariant
            i <= clients,
            items@.len() == i + 1,
            sub_entry_is(items@[0], "All controllers"@, true, Some(Action::PowerOff(-1i32))),
            forall|j: int|
                1 <= j <= i ==> sub_entry_is(
                    #[trigger] items@[j],
                    controller_label(j - 1),
                    true,
                    Some(Action::PowerOff((j - 1) as i32)),
                ),
        decreases clients - i,
    {
        let mut label = String::from_str("Controller ");
        push_decimal(&mut label, i + 1);
        let e = Entry { label, enabled: true, action: Some(Action::PowerOff(i as i32)) };
        items.push(SubItem::Entry(e));
        i = i + 1;
    }
    MenuItem::SubMenu { label: String::from_str("Power off…"), items }
}

/// The level entry of `level` for the LED at `path`.
fn level_entry(label: &str, path: &String, level: LedLevel, max_b: u32) -> (e: Entry)
    ensures
        e.label@ == label@,
        e.enabled,
        e.action matches Some(Action::SetLed { path: p, brightness: b, custom_mode: c }) && p@
            == path@ && b == level_brightness_spec(level, max_b) && c == (level != LedLevel::Off),
{
    let action = Action::SetLed {
        path: path.clone(),
        brightness: level_brightness(level, max_b),
        custom_mode: level != LedLevel::Off,
    };
    Entry { label: String::from_str(label), enabled: true, action: Some(action) }
}

/// The submenu of one LED.
fn led_submenu(led: &Led, max_b: u32) -> (item: SubItem)
    ensures
        is_led_submenu(item, *led, max_b),
{
    let mut entries: Vec<Entry> = Vec::new();
    entries.push(level_entry("Off", &led.path, LedLevel::Off, max_b));
    entries.push(level_entry("Low", &led.path, LedLevel::Low, max_b));
    entries.push(level_entry("Medium", &led.path, LedLevel::Medium, max_b));
    entries.push(level_entry("High", &led.path, LedLevel::High, max_b));
    SubItem::SubMenu { label: led.name.clone(), entries }
}

/// The LED submenu.
fn leds_menu(leds: &Vec<Led>, max_brightness: &Vec<u32>) -> (item: MenuItem)
    requires
        max_brightness@.len() == leds@.len(),
    ensures
        is_leds_menu(item, leds@, max_brightness@),
{
    let n = leds.len();
    let mut items: Vec<SubItem> = Vec::new();
    let mut k: usize = 0;
    while k < n
        invariant
            k <= n == leds@.len() == max_brightness@.len(),
            items@.len() == k,
            forall|j: int|
                0 <= j < k ==> is_led_submenu(#[trigger] items@[j], leds@[j], max_brightness@[j]),
        decreases n - k,
    {
        items.push(led_submenu(&leds[k], max_brightness[k]));
        k = k + 1;
    }
    MenuItem::SubMenu { label: String::from_str("LEDs"), items }
}


/// Whether `items` is the tray menu for the state `t` and the LEDs' maximum
/// brightnesses `max_b`, in order: the pairing checkmark (enabled only when
/// the attribute is writable); the controller count; the power-off submenu
/// when controllers are connected; the LED submenu when LEDs exist; a
/// separator and the udev rule installer when the attribute is not
/// writable; a separator and Quit.
pub open spec fn is_tray_menu(t: XoneTray, max_b: Seq<u32>, items: Seq<MenuItem>) -> bool {
    let p: int = if t.clients > 0 {
        1
    } else {
        0
    };
    let l: int = if t.leds@.len() > 0 {
        1
    } else {
        0
    };
    let u: int = if !t.can_write {
        2
    } else {
        0
    };
    &&& items.len() == 4 + p + l + u
    &&& items[0] matches MenuItem::Checkmark { label, enabled, checked, action } && label@
        == "Pairing Mode"@ && enabled == t.can_write && checked == t.pairing && action
        == Action::TogglePairing
    &&& item_is_entry(items[1], "Connected: "@ + decimal(t.clients as nat), false, None)
    &&& t.clients > 0 ==> is_power_off_menu(items[2], t.clients)
    &&& t.leds@.len() > 0 ==> is_leds_menu(items[2 + p], t.leds@, max_b)
    &&& !t.can_write ==> items[2 + p + l] is Separator && item_is_entry(
        items[3 + p + l],
        "Install udev rule (admin)…"@,
        true,
        Some(Action::InstallUdevRule),
    )
    &&& items[items.len() - 2] is Separator
    &&& item_is_entry(items[items.len() - 1], "Quit"@, true, Some(Action::Quit))
}

impl XoneTray {
    /// The tray menu, given the maximum brightness of each LED, in order.
    pub fn menu(&self, max_brightness: &Vec<u32>) -> (items: Vec<MenuItem>)
        requires
            max_brightness@.len() == self.leds@.len(),
        ensures
            is_tray_menu(*self, max_brightness@, items@),
    {
        let mut items: Vec<MenuItem> = Vec::new();
        items.push(
            MenuItem::Checkmark {
                label: String::from_str("Pairing Mode"),
                enabled: self.can_write,
                checked: self.pairing,
                action: Action::TogglePairing,
            },
        );
        let mut connected = String::from_str("Connected: ");
        push_decimal(&mut connected, self.clients);
        items.push(MenuItem::Entry(Entry { label: connected, enabled: false, action: None }));
        if self.clients > 0 {
            items.push(power_off_menu(self.clients));
        }
        if self.leds.len() > 0 {
            items.push(leds_menu(&self.leds, max_brightness));
        }
        if !self.can_write {
            items.push(MenuItem::Separator);
            items.push(
                MenuItem::Entry(
                    entry("Install udev rule (admin)…", true, Some(Action::InstallUdevRule)),
                ),
            );
        }
        items.push(MenuItem::Separator);
        items.push(MenuItem::Entry(entry("Quit", true, Some(Action::Quit))));
        items
    }
}


/// No level goes above the LED's maximum (for a maximum of at least 1), the
/// highest stays within three quarters of it, and low and medium never turn
/// the LED off.
pub proof fn law_level_caps(level: LedLevel, max_b: u32)
    ensures
        max_b >= 1 ==> level_brightness_spec(level, max_b) <= max_b,
        4 * level_brightness_spec(LedLevel::High, max_b) <= 3 * max_b,
        level_brightness_spec(LedLevel::Low, max_b) >= 1,
        level_brightness_spec(LedLevel::Medium, max_b) >= 1,
        level_brightness_spec(LedLevel::Off, max_b) == 0,
{
}

/// The label, state, check mark and action of a checkmark item.
pub open spec fn checkmark_of(item: MenuItem) -> Option<(Seq<char>, bool, bool, Action)> {
    match item {
        MenuItem::Checkmark { label, enabled, checked, action } => Some(
            (label@, enabled, checked, action),
        ),
        _ => None,
    }
}

/// The entry of a plain top-level item.
pub open spec fn entry_of(item: MenuItem) -> Option<Entry> {
    match item {
        MenuItem::Entry(e) => Some(e),
        _ => None,
    }
}

/// The label and items of a top-level submenu.
pub open spec fn submenu_of(item: MenuItem) -> Option<(Seq<char>, Seq<SubItem>)> {
    match item {
        MenuItem::SubMenu { label, items } => Some((label@, items@)),
        _ => None,
    }
}

/// The entry of a plain submenu item.
pub open spec fn sub_entry_of(item: SubItem) -> Option<Entry> {
    match item {
        SubItem::Entry(e) => Some(e),
        _ => None,
    }
}

/// The label and entries of a nested submenu.
pub open spec fn nested_of(item: SubItem) -> Option<(Seq<char>, Seq<Entry>)> {
    match item {
        SubItem::SubMenu { label, entries } => Some((label@, entries@)),
        _ => None,
    }
}

/// The LED path, brightness and mode switch of an entry that sets an LED.
pub open spec fn led_target(e: Entry) -> Option<(Seq<char>, u32, bool)> {
    match e.action {
        Some(Action::SetLed { path, brightness, custom_mode }) => Some(
            (path@, brightness, custom_mode),
        ),
        _ => None,
    }
}

/// The first menu item is the "Pairing Mode" checkmark: it is checked
/// exactly when the tray's pairing setting is on and enabled exactly when
/// the pairing attribute is writable, whatever else the state holds, and it
/// toggles pairing.
pub proof fn law_menu_pairing_checkmark(t: XoneTray, max_b: Seq<u32>, items: Seq<MenuItem>)
    requires
        is_tray_menu(t, max_b, items),
    ensures
        items.len() > 0,
        checkmark_of(items[0]) == Some(
            ("Pairing Mode"@, t.can_write, t.pairing, Action::TogglePairing),
        ),
{
}

/// With controllers connected, the third menu item is the "Power off…"
/// submenu: an enabled "All controllers" entry that powers off every client
/// (-1), then for each k from 1 to the controller count an enabled
/// "Controller k" entry that powers off client k - 1.
pub proof fn law_menu_power_off(t: XoneTray, max_b: Seq<u32>, items: Seq<MenuItem>)
    requires
        is_tray_menu(t, max_b, items),
        t.clients > 0,
    ensures
        items.len() > 2,
        submenu_of(items[2]) is Some,
        submenu_of(items[2]).unwrap().0 == "Power off…"@,
        ({
            let sub = submenu_of(items[2]).unwrap().1;
            &&& sub.len() == t.clients + 1
            &&& sub_entry_of(sub[0]) is Some
            &&& sub_entry_of(sub[0]).unwrap().label@ == "All controllers"@
            &&& sub_entry_of(sub[0]).unwrap().enabled
            &&& sub_entry_of(sub[0]).unwrap().action == Some(Action::PowerOff(-1i32))
            &&& forall|k: int|
                1 <= k <= t.clients ==> (#[trigger] sub_entry_of(sub[k])) is Some
                    && sub_entry_of(sub[k]).unwrap().label@ == "Controller "@ + decimal(k as nat)
                    && sub_entry_of(sub[k]).unwrap().enabled && sub_entry_of(sub[k]).unwrap().action
                    == Some(Action::PowerOff((k - 1) as i32))
        }),
{
    let sub = submenu_of(items[2]).unwrap().1;
    assert forall|k: int| 1 <= k <= t.clients implies (#[trigger] sub_entry_of(sub[k])) is Some
        && sub_entry_of(sub[k]).unwrap().label@ == "Controller "@ + decimal(k as nat)
        && sub_entry_of(sub[k]).unwrap().enabled && sub_entry_of(sub[k]).unwrap().action == Some(
        Action::PowerOff((k - 1) as i32),
    ) by {
        assert(sub_entry_is(
            sub[k],
            controller_label(k - 1),
            true,
            Some(Action::PowerOff((k - 1) as i32)),
        ));
        assert(((k - 1) + 1) as nat == k as nat);
    }
}

/// The entries of the `k`-th LED submenu in `sub`.
pub open spec fn led_entries(sub: Seq<SubItem>, k: int) -> Seq<Entry> {
    nested_of(sub[k]).unwrap().1
}

/// With LEDs present, the menu holds the "LEDs" submenu (after the power-off
/// submenu, when there is one) with one submenu per LED, in order: the k-th
/// is labelled with LED k's name, and its enabled Off, Low, Medium and High
/// entries all act on LED k's path, with the brightness 0, a quarter (at
/// least 1), half (at least 1) and three quarters of LED k's maximum; all but
/// Off switch the LED to the custom mode first.
pub proof fn law_menu_leds(t: XoneTray, max_b: Seq<u32>, items: Seq<MenuItem>)
    requires
        is_tray_menu(t, max_b, items),
        t.leds@.len() > 0,
    ensures
        ({
            let at: int = if t.clients > 0 {
                3
            } else {
                2
            };
            let sub = submenu_of(items[at]).unwrap().1;
            &&& at < items.len()
            &&& submenu_of(items[at]) is Some
            &&& submenu_of(items[at]).unwrap().0 == "LEDs"@
            &&& sub.len() == t.leds@.len()
            &&& forall|k: int|
                0 <= k < t.leds@.len() ==> (#[trigger] nested_of(sub[k])) is Some && nested_of(
                    sub[k],
                ).unwrap().0 == t.leds@[k].name@ && led_entries(sub, k).len() == 4
            &&& forall|k: int, e: int|
                0 <= k < t.leds@.len() && 0 <= e < 4 ==> (#[trigger] led_entries(sub, k)[e]).enabled
                    && led_target(led_entries(sub, k)[e]) is Some && led_target(
                    led_entries(sub, k)[e],
                ).unwrap().0 == t.leds@[k].path@
            &&& forall|k: int|
                0 <= k < t.leds@.len() ==> {
                    let es = #[trigger] led_entries(sub, k);
                    let m = max_b[k];
                    &&& es[0].label@ == "Off"@
                    &&& es[1].label@ == "Low"@
                    &&& es[2].label@ == "Medium"@
                    &&& es[3].label@ == "High"@
                    &&& led_target(es[0]).unwrap().1 == 0
                    &&& !led_target(es[0]).unwrap().2
                    &&& led_target(es[1]).unwrap().1 == (if m / 4 >= 1 {
                        m / 4
                    } else {
                        1
                    })
                    &&& led_target(es[1]).unwrap().2
                    &&& led_target(es[2]).unwrap().1 == (if m / 2 >= 1 {
                        m / 2
                    } else {
                        1
                    })
                    &&& led_target(es[2]).unwrap().2
                    &&& led_target(es[3]).unwrap().1 == m * 3 / 4
                    &&& led_target(es[3]).unwrap().2
                }
        }),
{
    let at: int = if t.clients > 0 {
        3
    } else {
        2
    };
    let sub = submenu_of(items[at]).unwrap().1;
    assert(is_leds_menu(items[at], t.leds@, max_b));
    assert forall|k: int| 0 <= k < t.leds@.len() implies (#[trigger] nested_of(sub[k])) is Some
        && nested_of(sub[k]).unwrap().0 == t.leds@[k].name@ && led_entries(sub, k).len() == 4 by {
        assert(is_led_submenu(sub[k], t.leds@[k], max_b[k]));
    }
    assert forall|k: int, e: int| 0 <= k < t.leds@.len() && 0 <= e < 4 implies (#[trigger] led_entries(
        sub,
        k,
    )[e]).enabled && led_target(led_entries(sub, k)[e]) is Some && led_target(
        led_entries(sub, k)[e],
    ).unwrap().0 == t.leds@[k].path@ by {
        assert(is_led_submenu(sub[k], t.leds@[k], max_b[k]));
    }
    assert forall|k: int| 0 <= k < t.leds@.len() implies {
        let es = #[trigger] led_entries(sub, k);
        let m = max_b[k];
        &&& es[0].label@ == "Off"@
        &&& es[1].label@ == "Low"@
        &&& es[2].label@ == "Medium"@
        &&& es[3].label@ == "High"@
        &&& led_target(es[0]).unwrap().1 == 0
        &&& !led_target(es[0]).unwrap().2
        &&& led_target(es[1]).unwrap().1 == (if m / 4 >= 1 {
            m / 4
        } else {
            1
        })
        &&& led_target(es[1]).unwrap().2
        &&& led_target(es[2]).unwrap().1 == (if m / 2 >= 1 {
            m / 2
        } else {
            1
        })
        &&& led_target(es[2]).unwrap().2
        &&& led_target(es[3]).unwrap().1 == m * 3 / 4
        &&& led_target(es[3]).unwrap().2
    } by {
        assert(is_led_submenu(sub[k], t.leds@[k], max_b[k]));
    }
}

/// When the pairing attribute is not writable, the menu offers an enabled
/// "Install udev rule (admin)…" entry, just before the closing separator and
/// Quit, that installs the udev rule; when it is writable, no menu item
/// installs it.
pub proof fn law_menu_installer(t: XoneTray, max_b: Seq<u32>, items: Seq<MenuItem>)
    requires
        is_tray_menu(t, max_b, items),
    ensures
        items.len() >= 4,
        !t.can_write ==> entry_of(items[items.len() - 3]) is Some && entry_of(
            items[items.len() - 3],
        ).unwrap().label@ == "Install udev rule (admin)…"@ && entry_of(
            items[items.len() - 3],
        ).unwrap().enabled && entry_of(items[items.len() - 3]).unwrap().action == Some(
            Action::InstallUdevRule,
        ),
        t.can_write ==> forall|i: int|
            0 <= i < items.len() ==> !((#[trigger] entry_of(items[i])) is Some && entry_of(
                items[i],
            ).unwrap().action == Some(Action::InstallUdevRule)),
{
    let p: int = if t.clients > 0 {
        1
    } else {
        0
    };
    let l: int = if t.leds@.len() > 0 {
        1
    } else {
        0
    };
    if t.can_write {
        assert forall|i: int| 0 <= i < items.len() implies !((#[trigger] entry_of(items[i])) is Some
            && entry_of(items[i]).unwrap().action == Some(Action::InstallUdevRule)) by {
            if i == 0 {
            } else if i == 1 {
            } else if i == 2 && p == 1 {
            } else if i == 2 + p && l == 1 {
            } else if i == items.len() - 2 {
            } else {
                assert(i == items.len() - 1);
            }
        }
    }
}

/// The menu's fixed items: after the pairing checkmark, a disabled
/// "Connected: N" line with the controller count and no action; a
/// separator and an enabled Quit last. The power-off submenu appears only
/// with controllers connected, the LED submenu only with LEDs, and the
/// menu has one item more for each of them and two more when the pairing
/// attribute is not writable.
pub proof fn law_menu_sections(t: XoneTray, max_b: Seq<u32>, items: Seq<MenuItem>)
    requires
        is_tray_menu(t, max_b, items),
    ensures
        items.len() == 4 + (if t.clients > 0 {
            1int
        } else {
            0
        }) + (if t.leds@.len() > 0 {
            1int
        } else {
            0
        }) + (if t.can_write {
            0int
        } else {
            2
        }),
        entry_of(items[1]) is Some,
        entry_of(items[1]).unwrap().label@ == "Connected: "@ + decimal(t.clients as nat),
        !entry_of(items[1]).unwrap().enabled,
        entry_of(items[1]).unwrap().action is None,
        items[items.len() - 2] is Separator,
        entry_of(items[items.len() - 1]) is Some,
        entry_of(items[items.len() - 1]).unwrap().label@ == "Quit"@,
        entry_of(items[items.len() - 1]).unwrap().enabled,
        entry_of(items[items.len() - 1]).unwrap().action == Some(Action::Quit),
        forall|i: int|
            0 <= i < items.len() && (#[trigger] submenu_of(items[i])) is Some ==> (
            submenu_of(items[i]).unwrap().0 == "Power off…"@ && t.clients > 0) || (submenu_of(
                items[i],
            ).unwrap().0 == "LEDs"@ && t.leds@.len() > 0),
{
    let p: int = if t.clients > 0 {
        1
    } else {
        0
    };
    let l: int = if t.leds@.len() > 0 {
        1
    } else {
        0
    };
    assert forall|i: int| 0 <= i < items.len() && (#[trigger] submenu_of(items[i])) is Some implies (
    submenu_of(items[i]).unwrap().0 == "Power off…"@ && t.clients > 0) || (submenu_of(
        items[i],
    ).unwrap().0 == "LEDs"@ && t.leds@.len() > 0) by {
        if i == 0 {
        } else if i == 1 {
        } else if i == 2 && p == 1 {
        } else if i == 2 + p && l == 1 {
        } else if !t.can_write && i == 2 + p + l {
        } else if !t.can_write && i == 3 + p + l {
        } else if i == items.len() - 2 {
        } else {
            assert(i == items.len() - 1);
        }
    }
}

/// The tooltip title says whether pairing is on (`ON`) or off (`off`) and
/// how many controllers are connected:
/// `xone - pairing <ON|off> | <count> connected`.
pub proof fn law_title_shows_state(pairing: bool, clients: u32)
    ensures
        title_text(pairing, clients) == "xone - pairing "@ + (if pairing {
            "ON"@
        } else {
            "off"@
        }) + " | "@ + decimal(clients as nat) + " connected"@,
        title_text(true, clients) != title_text(false, clients),
{
    reveal_strlit("ON");
    reveal_strlit("off");
    reveal_strlit("xone - pairing ");
    let a = title_text(true, clients);
    let b = title_text(false, clients);
    assert(a[15] == 'O');
    assert(b[15] == 'o');
}

} // verus!
