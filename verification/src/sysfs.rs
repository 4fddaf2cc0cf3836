//! The sysfs layer of the xone driver: which dongle and LEDs are used, what
//! the attribute files are read as, and what is written to them.

use vstd::prelude::*;

use crate::text::{
    all_ws, chars_of, decimal, decimal_string, first_line, first_line_bounds, lemma_decimal,
    lemma_decimal_edges, lemma_find_first, lemma_parse_decimal, lemma_trim_padded, occurs_at,
    parse_trimmed_u32, parse_u32, parse_u32_range, signed_decimal, signed_decimal_string,
    starts_with_range, strip_prefix, trim, trim_bounds, trim_str,
};

verus! {

/// GIP LED mode: off.
pub const LED_OFF: u32 = 0;

/// GIP LED mode: solid on.
pub const LED_ON: u32 = 1;

/// GIP LED mode: fast blink.
pub const LED_BLINK_FAST: u32 = 2;

/// GIP LED mode: normal blink.
pub const LED_BLINK_NORMAL: u32 = 3;

/// GIP LED mode: slow blink.
pub const LED_BLINK_SLOW: u32 = 4;

/// The LED mode that a brightness level from the menu switches to first.
pub const LED_CUSTOM_MODE: u32 = 2;

/// The driver's default LED brightness, used when none can be read.
pub const LED_BRIGHTNESS_DEFAULT: u32 = 20;

/// The class of a failed sysfs operation.
#[derive(Debug, Clone, Copy, PartialEq, Eq, Structural)]
pub enum ErrorKind {
    NotFound,
    InvalidData,
    PermissionDenied,
}

/// A failed sysfs operation: its class and a message.
#[derive(Debug)]
pub struct Error {
    pub kind: ErrorKind,
    pub message: String,
}

/// An error of class `NotFound` carrying `msg`.
pub fn not_found(msg: &str) -> (e: Error)
    ensures
        e.kind == ErrorKind::NotFound,
        e.message@ == msg@,
{
    Error { kind: ErrorKind::NotFound, message: String::from_str(msg) }
}

/// Whether `r` is the error that says no dongle is present.
pub open spec fn is_no_dongle_error<T>(r: Result<T, Error>) -> bool {
    r matches Err(e) && e.kind == ErrorKind::NotFound && e.message@ == "no xone dongle"@
}

/// The dongle directory, or the `NotFound` error that the dongle operations
/// report when there is none.
pub fn require_dongle<T>(dir: Option<T>) -> (r: Result<T, Error>)
    ensures
        match dir {
            Some(d) => r == Ok::<T, Error>(d),
            None => is_no_dongle_error(r),
        },
{
    match dir {
        Some(d) => Ok(d),
        None => Err(not_found("no xone dongle")),
    }
}

/// The index of the first driver directory entry that holds a `pairing`
/// file, given for each entry whether it does.
pub fn first_dongle(has_pairing: &Vec<bool>) -> (r: Option<usize>)
    ensures
        match r {
            Some(i) => i < has_pairing@.len() && has_pairing@[i as int] && forall|j: int|
                0 <= j < i ==> !has_pairing@[j],
            None => forall|j: int| 0 <= j < has_pairing@.len() ==> !has_pairing@[j],
        },
{
    let n = has_pairing.len();
    let mut i: usize = 0;
    while i < n
        invariant
            i <= n == has_pairing@.len(),
            forall|j: int| 0 <= j < i ==> !has_pairing@[j],
        decreases n - i,
    {
        if has_pairing[i] {
            return Some(i);
        }
        i = i + 1;
    }
    None
}

/// The driver directory to use: the override when one is given, else the
/// driver's sysfs directory.
pub fn dongle_base(override_dir: Option<String>) -> (r: String)
    ensures
        match override_dir {
            Some(d) => r@ == d@,
            None => r@ == "/sys/bus/usb/drivers/xone-dongle"@,
        },
{
    match override_dir {
        Some(d) => d,
        None => String::from_str("/sys/bus/usb/drivers/xone-dongle"),
    }
}

/// The LED class directory to use: the override when one is given, else
/// the sysfs LED class directory.
pub fn leds_base(override_dir: Option<String>) -> (r: String)
    ensures
        match override_dir {
            Some(d) => r@ == d@,
            None => r@ == "/sys/class/leds"@,
        },
{
    match override_dir {
        Some(d) => d,
        None => String::from_str("/sys/class/leds"),
    }
}

/// Whether the text of the `pairing` attribute says pairing is on: its
/// trimmed text is `1`.
pub open spec fn reads_as_paired(contents: Seq<char>) -> bool {
    trim(contents) == seq!['1']
}

/// Whether pairing is on, from the text of the `pairing` attribute.
pub fn parse_pairing(contents: &str) -> (r: bool)
    ensures
        r == reads_as_paired(contents@),
{
    let v = chars_of(contents);
    let (a, b) = trim_bounds(&v, 0, v.len());
    assert(v@.subrange(0, v@.len() as int) =~= v@);
    if b - a == 1 && v[a] == '1' {
        assert(v@.subrange(a as int, b as int) =~= seq!['1']);
        true
    } else {
        proof {
            let t = v@.subrange(a as int, b as int);
            if t == seq!['1'] {
                assert(t.len() == 1 && t[0] == '1');
                assert(t[0] == v@[a as int]);
            }
        }
        false
    }
}

/// The text written to the `pairing` attribute to switch pairing on or off.
pub open spec fn pairing_text(enabled: bool) -> Seq<char> {
    if enabled {
        seq!['1']
    } else {
        seq!['0']
    }
}

/// The prefix of the first line of the `active_clients` attribute.
pub open spec fn active_clients_prefix() -> Seq<char> {
    "Active clients: "@
}

/// The number of connected controllers that the `active_clients` attribute
/// gives: its first line is `Active clients: ` and a decimal `u32`.
pub open spec fn active_clients_count(contents: Seq<char>) -> Option<u32> {
    match first_line(contents) {
        Some(line) => match strip_prefix(line, active_clients_prefix()) {
            Some(n) => parse_u32(n),
            None => None,
        },
        None => None,
    }
}

/// Whether `r` is the error reported for an `active_clients` text in
/// another format.
pub open spec fn is_format_error<T>(r: Result<T, Error>) -> bool {
    r matches Err(e) && e.kind == ErrorKind::InvalidData && e.message@
        == "unexpected active_clients format"@
}

/// The number of connected controllers, from the text of the
/// `active_clients` attribute (e.g. `Active clients: 2\n[00]*\t[08]\n`).
pub fn parse_active_clients(contents: &str) -> (r: Result<u32, Error>)
    ensures
        match active_clients_count(contents@) {
            Some(n) => r == Ok::<u32, Error>(n),
            None => is_format_error(r),
        },
{
    let v = chars_of(contents);
    let prefix = chars_of("Active clients: ");
    let parsed = match first_line_bounds(&v) {
        Some(e) => {
            if starts_with_range(&v, 0, e, &prefix) {
                let p = prefix.len();
                assert(v@.subrange(0, e as int).subrange(p as int, e as int) =~= v@.subrange(
                    p as int,
                    e as int,
                ));
                parse_u32_range(&v, p, e)
            } else {
                None
            }
        },
        None => None,
    };
    match parsed {
        Some(n) => Ok(n),
        None => Err(
            Error {
                kind: ErrorKind::InvalidData,
                message: String::from_str("unexpected active_clients format"),
            },
        ),
    }
}

/// The brightness read from a `brightness` or `max_brightness` text, or the
/// driver default when the text could not be read or is no decimal `u32`.
pub open spec fn brightness_read(contents: Option<Seq<char>>) -> u32 {
    match contents {
        Some(c) => match parse_u32(trim(c)) {
            Some(b) => b,
            None => LED_BRIGHTNESS_DEFAULT,
        },
        None => LED_BRIGHTNESS_DEFAULT,
    }
}

/// The brightness that a read of a brightness attribute gives: `None` when
/// the file could not be read.
pub fn brightness_or_default(contents: Option<&str>) -> (r: u32)
    ensures
        r == brightness_read(
            match contents {
                Some(c) => Some(c@),
                None => None,
            },
        ),
{
    match contents {
        Some(c) => match parse_trimmed_u32(c) {
            Some(b) => b,
            None => LED_BRIGHTNESS_DEFAULT,
        },
        None => LED_BRIGHTNESS_DEFAULT,
    }
}

/// The LED mode that a `mode` text gives, when it is a decimal `u32`.
pub fn parse_mode(contents: &str) -> (r: Option<u32>)
    ensures
        r == parse_u32(trim(contents@)),
{
    parse_trimmed_u32(contents)
}


/// A writable sysfs attribute: of the dongle (`pairing`, `poweroff`) or of
/// an LED (`mode`, `brightness`).
#[derive(Debug, Clone, Copy, PartialEq, Eq, Structural)]
pub enum Attr {
    Pairing,
    Poweroff,
    Mode,
    Brightness,
}

/// The file name of an attribute.
pub open spec fn attr_file_name(a: Attr) -> Seq<char> {
    match a {
        Attr::Pairing => "pairing"@,
        Attr::Poweroff => "poweroff"@,
        Attr::Mode => "mode"@,
        Attr::Brightness => "brightness"@,
    }
}

impl Attr {
    /// The file name of this attribute within its device directory.
    pub fn file_name(&self) -> (r: &'static str)
        ensures
            r@ == attr_file_name(*self),
    {
        match self {
            Attr::Pairing => "pairing",
            Attr::Poweroff => "poweroff",
            Attr::Mode => "mode",
            Attr::Brightness => "brightness",
        }
    }
}

/// One write of `value` to the attribute `attr`.
#[derive(Debug)]
pub struct Write {
    pub attr: Attr,
    pub value: String,
}

/// Whether `w` writes the text `value` to `attr`.
pub open spec fn writes(w: Write, attr: Attr, value: Seq<char>) -> bool {
    w.attr == attr && w.value@ == value
}

/// The write that switches pairing on or off.
pub fn set_pairing_write(enabled: bool) -> (w: Write)
    ensures
        writes(w, Attr::Pairing, pairing_text(enabled)),
{
    proof {
        reveal_strlit("1");
        reveal_strlit("0");
        assert("1"@ =~= seq!['1']);
        assert("0"@ =~= seq!['0']);
    }
    let value = if enabled {
        String::from_str("1")
    } else {
        String::from_str("0")
    };
    Write { attr: Attr::Pairing, value }
}

/// The write that powers off one client (0–15), or all of them (-1).
pub fn power_off_write(index: i32) -> (w: Write)
    ensures
        writes(w, Attr::Poweroff, signed_decimal(index as int)),
{
    Write { attr: Attr::Poweroff, value: signed_decimal_string(index) }
}

/// The write that sets an LED's mode.
pub fn mode_write(mode: u32) -> (w: Write)
    ensures
        writes(w, Attr::Mode, decimal(mode as nat)),
{
    Write { attr: Attr::Mode, value: decimal_string(mode) }
}

/// The write that sets an LED's brightness.
pub fn brightness_write(brightness: u32) -> (w: Write)
    ensures
        writes(w, Attr::Brightness, decimal(brightness as nat)),
{
    Write { attr: Attr::Brightness, value: decimal_string(brightness) }
}

/// The writes that turn an LED off: mode `LED_OFF`.
pub fn led_off_writes() -> (ws: Vec<Write>)
    ensures
        ws@.len() == 1,
        writes(ws@[0], Attr::Mode, decimal(LED_OFF as nat)),
{
    let mut ws = Vec::new();
    ws.push(mode_write(LED_OFF));
    ws
}

/// The writes that set an LED to solid on at `brightness`, in order: mode
/// `LED_ON`, then the brightness.
pub fn led_solid_writes(brightness: u32) -> (ws: Vec<Write>)
    ensures
        ws@.len() == 2,
        writes(ws@[0], Attr::Mode, decimal(LED_ON as nat)),
        writes(ws@[1], Attr::Brightness, decimal(brightness as nat)),
{
    let mut ws = Vec::new();
    ws.push(mode_write(LED_ON));
    ws.push(brightness_write(brightness));
    ws
}

/// The writes that apply the effect `mode` to an LED while keeping its
/// brightness, in order: the mode, then the brightness read from the LED's
/// `brightness` text (`None` when it could not be read).
pub fn led_effect_writes(mode: u32, current_brightness: Option<&str>) -> (ws: Vec<Write>)
    ensures
        ws@.len() == 2,
        writes(ws@[0], Attr::Mode, decimal(mode as nat)),
        writes(
            ws@[1],
            Attr::Brightness,
            decimal(
                brightness_read(
                    match current_brightness {
                        Some(c) => Some(c@),
                        None => None,
                    },
                ) as nat,
            ),
        ),
{
    let brightness = brightness_or_default(current_brightness);
    let mut ws = Vec::new();
    ws.push(mode_write(mode));
    ws.push(brightness_write(brightness));
    ws
}

/// The writes that give an LED the brightness chosen in the menu, in order:
/// for the levels above off (`custom_mode`), the mode `LED_CUSTOM_MODE`
/// when the LED is not known to be in it already (`current_mode` is the
/// mode read from the LED, `None` when it could not be read), then the
/// brightness.
pub fn led_level_writes(brightness: u32, custom_mode: bool, current_mode: Option<u32>) -> (ws: Vec<
    Write,
>)
    ensures
        custom_mode && current_mode != Some(LED_CUSTOM_MODE) ==> ws@.len() == 2 && writes(
            ws@[0],
            Attr::Mode,
            decimal(LED_CUSTOM_MODE as nat),
        ) && writes(ws@[1], Attr::Brightness, decimal(brightness as nat)),
        !(custom_mode && current_mode != Some(LED_CUSTOM_MODE)) ==> ws@.len() == 1 && writes(
            ws@[0],
            Attr::Brightness,
            decimal(brightness as nat),
        ),
{
    let mut ws = Vec::new();
    let in_custom = match current_mode {
        Some(m) => m == LED_CUSTOM_MODE,
        None => false,
    };
    if custom_mode && !in_custom {
        ws.push(mode_write(LED_CUSTOM_MODE));
    }
    ws.push(brightness_write(brightness));
    ws
}

/// Whether a file name is that of a controller LED: it starts with `gip`.
pub open spec fn is_led_name(name: Seq<char>) -> bool {
    name.len() >= 3 && name[0] == 'g' && name[1] == 'i' && name[2] == 'p'
}

/// Whether an LED class entry, by its file name (`None` when the name is
/// not valid Unicode), is a controller LED.
pub open spec fn is_led_entry(name: Option<String>) -> bool {
    name matches Some(n) && is_led_name(n@)
}

/// Whether `name` is the file name of a controller LED.
pub fn led_name_matches(name: &str) -> (r: bool)
    ensures
        r == is_led_name(name@),
{
    let v = chars_of(name);
    v.len() >= 3 && v[0] == 'g' && v[1] == 'i' && v[2] == 'p'
}

/// The indices, in order, of the LED class entries that are controller
/// LEDs.
pub fn select_leds(names: &Vec<Option<String>>) -> (r: Vec<usize>)
    ensures
        forall|k: int| 0 <= k < r@.len() ==> #[trigger] r@[k] < names@.len(),
        forall|k: int| 0 <= k < r@.len() ==> is_led_entry(#[trigger] names@[r@[k] as int]),
        forall|k: int, l: int| 0 <= k < l < r@.len() ==> r@[k] < r@[l],
        forall|i: int|
            0 <= i < names@.len() && is_led_entry(#[trigger] names@[i]) ==> r@.contains(
                i as usize,
            ),
{
    let n = names.len();
    let mut r: Vec<usize> = Vec::new();
    let mut i: usize = 0;
    while i < n
        invariant
            i <= n == names@.len(),
            forall|k: int| 0 <= k < r@.len() ==> #[trigger] r@[k] < i,
            forall|k: int| 0 <= k < r@.len() ==> is_led_entry(#[trigger] names@[r@[k] as int]),
            forall|k: int, l: int| 0 <= k < l < r@.len() ==> r@[k] < r@[l],
            forall|j: int|
                0 <= j < i && is_led_entry(#[trigger] names@[j]) ==> r@.contains(j as usize),
        decreases n - i,
    {
        let is_led = match &names[i] {
            Some(name) => led_name_matches(name.as_str()),
            None => false,
        };
        let ghost old_r = r@;
        assert(is_led == is_led_entry(names@[i as int]));
        if is_led {
            r.push(i);
            assert(forall|k: int| 0 <= k < old_r.len() ==> r@[k] == old_r[k]);
        }
        assert forall|j: int|
            0 <= j < i + 1 && is_led_entry(#[trigger] names@[j]) implies r@.contains(
            j as usize,
        ) by {
            if j == i {
                assert(r@[r@.len() - 1] == i);
            } else {
                assert(old_r.contains(j as usize));
                let k = choose|k: int| 0 <= k < old_r.len() && old_r[k] == j as usize;
                assert(r@[k] == j as usize);
            }
        }
        i = i + 1;
    }
    r
}


/// The texts of a list of strings.
pub open spec fn texts(v: Seq<String>) -> Seq<Seq<char>> {
    v.map_values(|s: String| s@)
}

/// The first of `names` that is not blank, trimmed.
pub open spec fn first_named(names: Seq<Seq<char>>) -> Option<Seq<char>>
    decreases names.len(),
{
    if names.len() == 0 {
        None
    } else if trim(names[0]).len() > 0 {
        Some(trim(names[0]))
    } else {
        first_named(names.drop_first())
    }
}

/// The human-readable name of a controller LED: the first non-blank input
/// device name, else the first non-blank power-supply model name, else the
/// LED's directory name.
pub open spec fn led_label(
    input_names: Seq<Seq<char>>,
    model_names: Seq<Seq<char>>,
    dir_name: Seq<char>,
) -> Seq<char> {
    match first_named(input_names) {
        Some(n) => n,
        None => match first_named(model_names) {
            Some(n) => n,
            None => dir_name,
        },
    }
}

/// The first of `names` that is not blank, trimmed.
fn first_named_in(names: &Vec<String>) -> (r: Option<String>)
    ensures
        match r {
            Some(s) => first_named(texts(names@)) == Some(s@),
            None => first_named(texts(names@)) is None,
        },
{
    let n = names.len();
    let ghost all = texts(names@);
    let mut i: usize = 0;
    assert(all.subrange(0, n as int) =~= all);
    while i < n
        invariant
            i <= n == names@.len(),
            all == texts(names@),
            all.len() == n,
            first_named(all) == first_named(all.subrange(i as int, n as int)),
        decreases n - i,
    {
        let t = trim_str(names[i].as_str());
        assert(all[i as int] == names@[i as int]@);
        assert(all.subrange(i as int, n as int)[0] == all[i as int]);
        if !t.is_empty() {
            return Some(String::from_str(t));
        }
        assert(all.subrange(i as int, n as int).drop_first() =~= all.subrange(i + 1, n as int));
        i = i + 1;
    }
    None
}

/// The name shown for a controller LED, from the texts of its input
/// devices' `name` files and of its power supplies' `model_name` files that
/// could be read (in directory order), and the LED's directory name.
pub fn choose_led_name(input_names: &Vec<String>, model_names: &Vec<String>, dir_name: &str) -> (r:
    String)
    ensures
        r@ == led_label(texts(input_names@), texts(model_names@), dir_name@),
{
    match first_named_in(input_names) {
        Some(n) => n,
        None => match first_named_in(model_names) {
            Some(n) => n,
            None => String::from_str(dir_name),
        },
    }
}


/// What is written to switch pairing on or off is read back as that
/// setting, whatever whitespace surrounds it.
pub proof fn law_pairing_round_trip(enabled: bool, before: Seq<char>, after: Seq<char>)
    requires
        all_ws(before),
        all_ws(after),
    ensures
        reads_as_paired(before + pairing_text(enabled) + after) == enabled,
{
    lemma_trim_padded(before, pairing_text(enabled), after);
    if !enabled {
        assert(pairing_text(enabled)[0] != seq!['1'][0]);
    }
}

/// A brightness written as decimal text is read back as that brightness,
/// whatever whitespace surrounds it; so an effect keeps the brightness that
/// a solid setting wrote.
pub proof fn law_brightness_round_trip(brightness: u32, before: Seq<char>, after: Seq<char>)
    requires
        all_ws(before),
        all_ws(after),
    ensures
        brightness_read(Some(before + decimal(brightness as nat) + after)) == brightness,
{
    lemma_decimal_edges(brightness as nat);
    lemma_trim_padded(before, decimal(brightness as nat), after);
    lemma_parse_decimal(brightness);
}

/// An `active_clients` text whose first line is `Active clients: ` and the
/// decimal count gives that count, whatever lines follow.
pub proof fn law_active_clients_format(count: u32, rest: Seq<char>)
    ensures
        active_clients_count("Active clients: "@ + decimal(count as nat) + seq!['\n'] + rest)
            == Some(count),
{
    reveal_strlit("Active clients: ");
    let p = active_clients_prefix();
    let d = decimal(count as nat);
    let line = p + d;
    let s = line + seq!['\n'] + rest;
    lemma_decimal(count as nat);
    lemma_decimal_edges(count as nat);
    let nl = seq!['\n'];
    let k = line.len() as int;
    assert(s.subrange(k, k + 1) =~= nl);
    assert forall|j: int| 0 <= j < k implies !occurs_at(s, nl, j) by {
        assert(s.subrange(j, j + 1)[0] == s[j]);
        if j < p.len() {
            assert(s[j] == p[j]);
        } else {
            assert(s[j] == d[j - p.len()]);
            assert(crate::text::is_digit(d[j - p.len()]));
        }
    }
    lemma_find_first(s, nl, 0, k);
    assert(s.subrange(0, k) =~= line);
    assert(line.last() == d.last());
    assert(line.subrange(0, p.len() as int) =~= p);
    assert(line.subrange(p.len() as int, line.len() as int) =~= d);
    lemma_parse_decimal(count);
}

/// What `first_named` picks: the first name whose trimmed text is not empty,
/// trimmed; nothing when every name is blank.
proof fn lemma_first_named(names: Seq<Seq<char>>, i: int)
    requires
        0 <= i <= names.len(),
        forall|j: int| 0 <= j < i ==> trim(#[trigger] names[j]).len() == 0,
    ensures
        i < names.len() && trim(names[i]).len() > 0 ==> first_named(names) == Some(trim(names[i])),
        i == names.len() ==> first_named(names) is None,
    decreases i,
{
    if i > 0 {
        let rest = names.drop_first();
        assert forall|j: int| 0 <= j < i - 1 implies trim(#[trigger] rest[j]).len() == 0 by {
            assert(rest[j] == names[j + 1]);
        }
        assert(trim(names[0]).len() == 0);
        lemma_first_named(rest, i - 1);
        if i < names.len() {
            assert(rest[i - 1] == names[i]);
        }
    }
}

/// An LED is named after its first input device whose name is not blank,
/// trimmed, whatever its power supplies' model names are.
pub proof fn law_led_name_prefers_input(
    input_names: Seq<Seq<char>>,
    model_names: Seq<Seq<char>>,
    dir_name: Seq<char>,
    i: int,
)
    requires
        0 <= i < input_names.len(),
        trim(input_names[i]).len() > 0,
        forall|j: int| 0 <= j < i ==> trim(#[trigger] input_names[j]).len() == 0,
    ensures
        led_label(input_names, model_names, dir_name) == trim(input_names[i]),
{
    lemma_first_named(input_names, i);
}

/// When every input device name is blank, an LED is named after its first
/// power supply whose model name is not blank, trimmed.
pub proof fn law_led_name_falls_back_to_model(
    input_names: Seq<Seq<char>>,
    model_names: Seq<Seq<char>>,
    dir_name: Seq<char>,
    i: int,
)
    requires
        forall|j: int| 0 <= j < input_names.len() ==> trim(#[trigger] input_names[j]).len() == 0,
        0 <= i < model_names.len(),
        trim(model_names[i]).len() > 0,
        forall|j: int| 0 <= j < i ==> trim(#[trigger] model_names[j]).len() == 0,
    ensures
        led_label(input_names, model_names, dir_name) == trim(model_names[i]),
{
    lemma_first_named(input_names, input_names.len() as int);
    lemma_first_named(model_names, i);
}

/// When every input device name and every model name is blank, an LED is
/// named after its directory.
pub proof fn law_led_name_falls_back_to_dir(
    input_names: Seq<Seq<char>>,
    model_names: Seq<Seq<char>>,
    dir_name: Seq<char>,
)
    requires
        forall|j: int| 0 <= j < input_names.len() ==> trim(#[trigger] input_names[j]).len() == 0,
        forall|j: int| 0 <= j < model_names.len() ==> trim(#[trigger] model_names[j]).len() == 0,
    ensures
        led_label(input_names, model_names, dir_name) == dir_name,
{
    lemma_first_named(input_names, input_names.len() as int);
    lemma_first_named(model_names, model_names.len() as int);
}

} // verus!
