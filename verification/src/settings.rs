use vstd::prelude::*;

verus! {

/// How gain points are estimated.
#[derive(Debug, Clone, Copy, PartialEq, Eq, Structural)]
pub enum GainMode {
    Off,
    Legacy,
    Modern,
}

/// The order of the two halves of an MDCT input block.
#[derive(Debug, Clone, Copy, PartialEq, Eq, Structural)]
pub enum MdctInputOrder {
    CurrentThenOverlap,
    OverlapThenCurrent,
}

/// How an MDCT input block is assembled from the current and overlap
/// halves.
#[derive(Debug, Clone, Copy, PartialEq, Eq, Structural)]
pub struct MdctInputVariant {
    pub order: MdctInputOrder,
    pub reverse_first: bool,
    pub reverse_second: bool,
    pub negate_first: bool,
    pub negate_second: bool,
}

/// A character with its ASCII capital turned to lower case.
pub open spec fn ascii_lower(c: char) -> char {
    if 65 <= (c as u32) <= 90 {
        ((c as u32) + 32) as char
    } else {
        c
    }
}

pub open spec fn lowered(s: Seq<char>) -> Seq<char> {
    s.map_values(|c: char| ascii_lower(c))
}

/// Unicode white space, as `char::is_whitespace` tells it.
pub open spec fn is_white_space(c: char) -> bool {
    let v = c as u32;
    (9 <= v <= 13) || v == 32 || v == 0x85 || v == 0xa0 || v == 0x1680 || (0x2000 <= v <= 0x200a)
        || v == 0x2028 || v == 0x2029 || v == 0x202f || v == 0x205f || v == 0x3000
}

/// Index of the first character at or after `i` that is not white space.
pub open spec fn skip_white_forward(s: Seq<char>, i: nat) -> nat
    decreases s.len() - i,
{
    if i >= s.len() {
        s.len()
    } else if is_white_space(s[i as int]) {
        skip_white_forward(s, i + 1)
    } else {
        i
    }
}

/// One past the last character before `j` that is not white space, no
/// lower than `lo`.
pub open spec fn skip_white_backward(s: Seq<char>, lo: nat, j: nat) -> nat
    decreases j,
{
    if j <= lo {
        lo
    } else if is_white_space(s[j - 1]) {
        skip_white_backward(s, lo, (j - 1) as nat)
    } else {
        j
    }
}

/// `s` without leading and trailing white space, as `str::trim` gives it.
pub open spec fn trimmed(s: Seq<char>) -> Seq<char> {
    let start = skip_white_forward(s, 0);
    s.subrange(start as int, skip_white_backward(s, start, s.len()) as int)
}

fn is_white_space_char(c: char) -> (r: bool)
    ensures
        r == is_white_space(c),
{
    let v: u32 = c as u32;
    (9 <= v && v <= 13) || v == 32 || v == 0x85 || v == 0xa0 || v == 0x1680 || (0x2000 <= v && v
        <= 0x200a) || v == 0x2028 || v == 0x2029 || v == 0x202f || v == 0x205f || v == 0x3000
}

fn lower_char(c: char) -> (r: char)
    ensures
        r == ascii_lower(c),
{
    let v: u32 = c as u32;
    if 65 <= v && v <= 90 {
        let lower: u8 = (v + 32) as u8;
        lower as char
    } else {
        c
    }
}

/// The characters `from..to` of `s`, with ASCII capitals lowered, spell
/// `word`.
fn spells_lowered(s: &str, from: usize, to: usize, word: &str) -> (r: bool)
    requires
        from <= to <= s@.len(),
    ensures
        r == (lowered(s@.subrange(from as int, to as int)) == word@),
{
    let n: usize = word.unicode_len();
    let ghost part = lowered(s@.subrange(from as int, to as int));
    if to - from != n {
        assert(part.len() != word@.len());
        return false;
    }
    let mut k: usize = 0;
    while k < n
        invariant
            from <= to <= s@.len(),
            to - from == n == word@.len(),
            part == lowered(s@.subrange(from as int, to as int)),
            k <= n,
            forall|i: int| 0 <= i < k ==> part[i] == word@[i],
        decreases n - k,
    {
        let a: char = lower_char(s.get_char(from + k));
        let b: char = word.get_char(k);
        if a != b {
            assert(part[k as int] != word@[k as int]);
            return false;
        }
        k += 1;
    }
    assert(part =~= word@);
    true
}

/// The bounds of `s` without its leading and trailing white space.
fn trim_bounds(s: &str) -> (r: (usize, usize))
    ensures
        r.0 <= r.1 <= s@.len(),
        s@.subrange(r.0 as int, r.1 as int) == trimmed(s@),
{
    let n: usize = s.unicode_len();
    let mut start: usize = 0;
    while start < n && is_white_space_char(s.get_char(start))
        invariant
            n == s@.len(),
            start <= n,
            skip_white_forward(s@, 0) == skip_white_forward(s@, start as nat),
        decreases n - start,
    {
        start += 1;
    }
    let mut end: usize = n;
    while end > start && is_white_space_char(s.get_char(end - 1))
        invariant
            n == s@.len(),
            start <= end <= n,
            start == skip_white_forward(s@, 0),
            skip_white_backward(s@, start as nat, n as nat) == skip_white_backward(
                s@,
                start as nat,
                end as nat,
            ),
        decreases end,
    {
        end -= 1;
    }
    (start, end)
}

/// Whether a flag setting is on: "1", "true", "yes" or "on" in any ASCII
/// case; an unset flag takes `default`.
pub open spec fn flag_setting(value: Option<Seq<char>>, default: bool) -> bool {
    match value {
        None => default,
        Some(v) => {
            let l = lowered(v);
            l == "1"@ || l == "true"@ || l == "yes"@ || l == "on"@
        },
    }
}

pub fn setting_flag(value: Option<&str>, default: bool) -> (on: bool)
    ensures
        on == flag_setting(option_view(value), default),
{
    match value {
        None => default,
        Some(v) => {
            let n: usize = v.unicode_len();
            assert(v@.subrange(0, n as int) =~= v@);
            spells_lowered(v, 0, n, "1") || spells_lowered(v, 0, n, "true") || spells_lowered(
                v,
                0,
                n,
                "yes",
            ) || spells_lowered(v, 0, n, "on")
        },
    }
}

/// A choice setting: trimmed, with ASCII capitals lowered; empty counts as
/// unset.
pub open spec fn choice_setting(value: Option<Seq<char>>) -> Option<Seq<char>> {
    match value {
        None => None,
        Some(v) => {
            let c = lowered(trimmed(v));
            if c.len() == 0 {
                None
            } else {
                Some(c)
            }
        },
    }
}

pub open spec fn option_view(value: Option<&str>) -> Option<Seq<char>> {
    match value {
        None => None,
        Some(v) => Some(v@),
    }
}

/// The gain mode a setting selects: off for "0", "false", "no", "off" or
/// anything unknown, legacy for "1", "true", "yes", "on" or "legacy",
/// modern for "modern".
pub open spec fn gain_mode_for(choice: Option<Seq<char>>) -> GainMode {
    match choice {
        Some(c) => if c == "1"@ || c == "true"@ || c == "yes"@ || c == "on"@ || c == "legacy"@ {
            GainMode::Legacy
        } else if c == "modern"@ {
            GainMode::Modern
        } else {
            GainMode::Off
        },
        None => GainMode::Off,
    }
}

/// Whether the trimmed characters of `v` spell `word` once lowered.
fn choice_is(v: &str, bounds: (usize, usize), word: &str) -> (r: bool)
    requires
        bounds.0 <= bounds.1 <= v@.len(),
        v@.subrange(bounds.0 as int, bounds.1 as int) == trimmed(v@),
    ensures
        r == (lowered(trimmed(v@)) == word@),
{
    spells_lowered(v, bounds.0, bounds.1, word)
}

/// The gain mode selected by the gain setting.
pub fn gain_mode(setting: Option<&str>) -> (mode: GainMode)
    ensures
        mode == gain_mode_for(choice_setting(option_view(setting))),
{
    match setting {
        None => GainMode::Off,
        Some(v) => {
            let bounds = trim_bounds(v);
            if bounds.0 == bounds.1 {
                return GainMode::Off;
            }
            if choice_is(v, bounds, "1") || choice_is(v, bounds, "true") || choice_is(
                v,
                bounds,
                "yes",
            ) || choice_is(v, bounds, "on") || choice_is(v, bounds, "legacy") {
                GainMode::Legacy
            } else if choice_is(v, bounds, "modern") {
                GainMode::Modern
            } else {
                GainMode::Off
            }
        },
    }
}

/// Gain points are estimated unless the gain setting turns them off.
pub fn apply_gain_estimation(setting: Option<&str>) -> (on: bool)
    ensures
        on == (gain_mode_for(choice_setting(option_view(setting))) != GainMode::Off),
{
    gain_mode(setting) != GainMode::Off
}

/// Odd QMF bands are reversed unless the setting turns it off.
pub fn apply_odd_band_reverse(setting: Option<&str>) -> (on: bool)
    ensures
        on == flag_setting(option_view(setting), true),
{
    setting_flag(setting, true)
}

/// Gain curves are swapped only when the setting turns it on.
pub fn swap_gain_curve_order(setting: Option<&str>) -> (on: bool)
    ensures
        on == flag_setting(option_view(setting), false),
{
    setting_flag(setting, false)
}

/// The reference MDCT is used only when the setting turns it on.
pub fn use_reference_mdct(setting: Option<&str>) -> (on: bool)
    ensures
        on == flag_setting(option_view(setting), false),
{
    setting_flag(setting, false)
}

/// The MDCT input order a setting selects: current first for
/// "current-first" or "current_then_overlap", else overlap first.
pub open spec fn input_order_for(choice: Option<Seq<char>>) -> MdctInputOrder {
    match choice {
        Some(c) => if c == "current-first"@ || c == "current_then_overlap"@ {
            MdctInputOrder::CurrentThenOverlap
        } else {
            MdctInputOrder::OverlapThenCurrent
        },
        None => MdctInputOrder::OverlapThenCurrent,
    }
}

impl MdctInputOrder {
    /// The order selected by the value of its setting.
    pub fn from_env(setting: Option<&str>) -> (order: Self)
        ensures
            order == input_order_for(choice_setting(option_view(setting))),
    {
        match setting {
            None => MdctInputOrder::OverlapThenCurrent,
            Some(v) => {
                let bounds = trim_bounds(v);
                if bounds.0 == bounds.1 {
                    return MdctInputOrder::OverlapThenCurrent;
                }
                if choice_is(v, bounds, "current-first") || choice_is(
                    v,
                    bounds,
                    "current_then_overlap",
                ) {
                    MdctInputOrder::CurrentThenOverlap
                } else {
                    MdctInputOrder::OverlapThenCurrent
                }
            },
        }
    }
}

impl MdctInputVariant {
    /// The variant selected by the values of its five settings; every
    /// reversal and negation is off unless its flag is on.
    pub fn from_env(
        order: Option<&str>,
        reverse_first: Option<&str>,
        reverse_second: Option<&str>,
        negate_first: Option<&str>,
        negate_second: Option<&str>,
    ) -> (v: Self)
        ensures
            v.order == input_order_for(choice_setting(option_view(order))),
            v.reverse_first == flag_setting(option_view(reverse_first), false),
            v.reverse_second == flag_setting(option_view(reverse_second), false),
            v.negate_first == flag_setting(option_view(negate_first), false),
            v.negate_second == flag_setting(option_view(negate_second), false),
    {
        MdctInputVariant {
            order: MdctInputOrder::from_env(order),
            reverse_first: setting_flag(reverse_first, false),
            reverse_second: setting_flag(reverse_second, false),
            negate_first: setting_flag(negate_first, false),
            negate_second: setting_flag(negate_second, false),
        }
    }
}

/// Whether a setting leaves a feature on: anything but "0", "false", "no"
/// or "off" in any ASCII case; an unset one takes `default`.
pub open spec fn not_off_setting(value: Option<Seq<char>>, default: bool) -> bool {
    match value {
        None => default,
        Some(v) => {
            let l = lowered(v);
            !(l == "0"@ || l == "false"@ || l == "no"@ || l == "off"@)
        },
    }
}

fn setting_not_off(value: Option<&str>, default: bool) -> (on: bool)
    ensures
        on == not_off_setting(option_view(value), default),
{
    match value {
        None => default,
        Some(v) => {
            let n: usize = v.unicode_len();
            assert(v@.subrange(0, n as int) =~= v@);
            !(spells_lowered(v, 0, n, "0") || spells_lowered(v, 0, n, "false") || spells_lowered(
                v,
                0,
                n,
                "no",
            ) || spells_lowered(v, 0, n, "off"))
        },
    }
}

/// The direct QMF analysis runs unless its setting turns it off.
pub fn qmf_use_direct_analysis(setting: Option<&str>) -> (on: bool)
    ensures
        on == not_off_setting(option_view(setting), true),
{
    setting_not_off(setting, true)
}

/// The executable's QMF window is used unless its setting turns it off.
pub fn qmf_use_exe_window(setting: Option<&str>) -> (on: bool)
    ensures
        on == not_off_setting(option_view(setting), true),
{
    setting_not_off(setting, true)
}

/// The high QMF band is odd minus even unless its flag is set otherwise;
/// unset, it is.
pub fn qmf_high_is_odd_minus_even(setting: Option<&str>) -> (on: bool)
    ensures
        on == flag_setting(option_view(setting), true),
{
    setting_flag(setting, true)
}

/// The root QMF halves are swapped only when the flag is on.
pub fn qmf_root_swap(setting: Option<&str>) -> (on: bool)
    ensures
        on == flag_setting(option_view(setting), false),
{
    setting_flag(setting, false)
}

/// The upper QMF halves are swapped unless the flag is set otherwise;
/// unset, they are.
pub fn qmf_upper_swap(setting: Option<&str>) -> (on: bool)
    ensures
        on == flag_setting(option_view(setting), true),
{
    setting_flag(setting, true)
}

/// The gain application is on only when its setting is exactly "1".
pub fn sony_gain_apply_enabled(setting: Option<&str>) -> (on: bool)
    ensures
        on == (option_view(setting) == Some("1"@)),
{
    match setting {
        None => false,
        Some(v) => {
            proof {
                reveal_strlit("1");
            }
            let n: usize = v.unicode_len();
            let one_len: usize = "1".unicode_len();
            if n != one_len {
                assert(v@ != "1"@);
                return false;
            }
            let r = v.get_char(0) == "1".get_char(0);
            assert(r == (v@ =~= "1"@));
            r
        },
    }
}

/// The alternative engine runs when its setting is "frankenstein" in any
/// ASCII case, or "1".
pub fn engine_is_frankenstein(setting: Option<&str>) -> (on: bool)
    ensures
        on == match option_view(setting) {
            None => false,
            Some(v) => lowered(v) == "frankenstein"@ || v == "1"@,
        },
{
    match setting {
        None => false,
        Some(v) => {
            let n: usize = v.unicode_len();
            assert(v@.subrange(0, n as int) =~= v@);
            let named = spells_lowered(v, 0, n, "frankenstein");
            let one = sony_gain_apply_enabled(Some(v));
            named || one
        },
    }
}

} // verus!
