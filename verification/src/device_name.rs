//! The name under which a device shows up in other devices' lists.

use vstd::prelude::*;

use crate::text::is_control_char;
use crate::text::is_white_space;
use crate::text::law_trimming_takes_white_space_off_both_ends;
use crate::text::trimmed;
use crate::text::trimmed_chars;
use crate::text::trimmed_end;
use crate::text::trimmed_start;

verus! {

/// The option that holds the name which the user has chosen.
pub const LAN_DEVICE_NAME_OPTION: &'static str = "lan-device-name";

/// The longest device name, in characters.
pub const MAX_DEVICE_NAME_CHARS: usize = 64;

/// `s` without its control characters.
pub open spec fn without_controls(s: Seq<char>) -> Seq<char> {
    s.filter(|c: char| !is_control_char(c))
}

/// The first `n` characters of `s`, or all of them if there are fewer.
pub open spec fn first_chars(s: Seq<char>, n: int) -> Seq<char> {
    if s.len() <= n {
        s
    } else {
        s.take(n)
    }
}

/// `value` as a device name: trimmed, then without control characters, then cut
/// to the greatest length.
pub open spec fn sanitized(value: Seq<char>) -> Seq<char> {
    first_chars(without_controls(trimmed(value)), MAX_DEVICE_NAME_CHARS as int)
}

/// The name to show: the custom one, the host's one where the custom one is
/// empty, and a fixed one where both are.
pub open spec fn display_name(custom_name: Seq<char>, system_hostname: Seq<char>) -> Seq<char> {
    if sanitized(custom_name).len() > 0 {
        sanitized(custom_name)
    } else if sanitized(system_hostname).len() > 0 {
        sanitized(system_hostname)
    } else {
        "SubnetDesk"@
    }
}

proof fn lemma_filter_step(s: Seq<char>, i: int)
    requires
        0 <= i < s.len(),
    ensures
        without_controls(s.take(i + 1)) == if is_control_char(s[i]) {
            without_controls(s.take(i))
        } else {
            without_controls(s.take(i)).push(s[i])
        },
{
    reveal(Seq::filter);
    assert(s.take(i + 1).drop_last() == s.take(i));
    assert(s.take(i + 1).last() == s[i]);
}

/// What was kept of a prefix is kept of the whole, in the same place.
proof fn lemma_filter_prefix(s: Seq<char>, i: int)
    requires
        0 <= i <= s.len(),
    ensures
        without_controls(s.take(i)).is_prefix_of(without_controls(s)),
    decreases s.len() - i,
{
    if i == s.len() {
        assert(s.take(i) == s);
    } else {
        lemma_filter_step(s, i);
        lemma_filter_prefix(s, i + 1);
        let here = without_controls(s.take(i));
        let next = without_controls(s.take(i + 1));
        let all = without_controls(s);
        assert(here.is_prefix_of(next));
        assert(next == all.subrange(0, next.len() as int));
        assert(here =~= all.subrange(0, here.len() as int));
    }
}

/// Makes `value` fit to be a device name.
pub fn sanitize_lan_device_name(value: &str) -> (name: String)
    ensures
        name@ == sanitized(value@),
{
    let chars: Vec<char> = trimmed_chars(value);
    let mut name = String::new();
    let mut taken: usize = 0;
    let mut i: usize = 0;
    assert(chars@.take(0) == Seq::<char>::empty());
    assert(without_controls(chars@.take(0)) == Seq::<char>::empty()) by {
        reveal(Seq::filter);
    }
    while i < chars.len() && taken < MAX_DEVICE_NAME_CHARS
        invariant
            i <= chars.len(),
            taken == name@.len(),
            taken <= MAX_DEVICE_NAME_CHARS,
            name@ == without_controls(chars@.take(i as int)),
        decreases chars.len() - i,
    {
        proof {
            lemma_filter_step(chars@, i as int);
        }
        if !chars[i].is_control() {
            name.push(chars[i]);
            taken += 1;
        }
        i += 1;
    }
    proof {
        lemma_filter_prefix(chars@, i as int);
        if i == chars.len() {
            assert(chars@.take(i as int) == chars@);
        }
        assert(name@ =~= first_chars(without_controls(chars@), MAX_DEVICE_NAME_CHARS as int));
    }
    name
}

/// Picks the name to show for a device.
pub fn select_device_display_name(custom_name: &str, system_hostname: &str) -> (name: String)
    ensures
        name@ == display_name(custom_name@, system_hostname@),
{
    let custom: String = sanitize_lan_device_name(custom_name);
    if !custom.as_str().is_empty() {
        return custom;
    }
    let hostname: String = sanitize_lan_device_name(system_hostname);
    if hostname.as_str().is_empty() {
        "SubnetDesk".to_owned()
    } else {
        hostname
    }
}

/// A sequence without control characters is left alone by their removal.
proof fn lemma_nothing_to_remove(s: Seq<char>)
    requires
        forall|i: int| 0 <= i < s.len() ==> !is_control_char(#[trigger] s[i]),
    ensures
        without_controls(s) == s,
    decreases s.len(),
{
    reveal(Seq::filter);
    if s.len() > 0 {
        assert(!is_control_char(s[s.len() - 1]));
        lemma_nothing_to_remove(s.drop_last());
        assert(s.drop_last().push(s.last()) == s);
    }
}

proof fn lemma_kept_are_no_controls(s: Seq<char>)
    ensures
        forall|i: int|
            0 <= i < without_controls(s).len() ==> !is_control_char(#[trigger] without_controls(s)[i]),
    decreases s.len(),
{
    reveal(Seq::filter);
    if s.len() > 0 {
        lemma_kept_are_no_controls(s.drop_last());
    }
}

/// A trimmed text is a stretch of the text.
pub proof fn lemma_trimmed_is_stretch(s: Seq<char>) -> (from: int)
    ensures
        0 <= from <= from + trimmed(s).len() <= s.len(),
        trimmed(s) == s.subrange(from, from + trimmed(s).len()),
{
    let from = lemma_trimmed_start_is_suffix(s);
    lemma_trimmed_end_is_prefix(trimmed_start(s));
    assert(trimmed(s) =~= s.subrange(from, from + trimmed(s).len()));
    from
}

proof fn lemma_trimmed_start_is_suffix(s: Seq<char>) -> (from: int)
    ensures
        0 <= from <= s.len(),
        trimmed_start(s) == s.skip(from),
    decreases s.len(),
{
    if s.len() > 0 && is_white_space(s[0]) {
        let from = lemma_trimmed_start_is_suffix(s.drop_first());
        assert(s.drop_first().skip(from) == s.skip(from + 1));
        from + 1
    } else {
        assert(s.skip(0) == s);
        0
    }
}

proof fn lemma_trimmed_end_is_prefix(s: Seq<char>)
    ensures
        trimmed_end(s).is_prefix_of(s),
    decreases s.len(),
{
    if s.len() > 0 && is_white_space(s.last()) {
        lemma_trimmed_end_is_prefix(s.drop_last());
        let t = trimmed_end(s);
        assert(t == s.drop_last().subrange(0, t.len() as int));
        assert(t =~= s.subrange(0, t.len() as int));
    } else {
        assert(s == s.subrange(0, s.len() as int));
    }
}

/// A device name is never longer than the greatest length, and holds no control
/// character.
pub proof fn law_device_name_is_bounded_and_printable(value: Seq<char>)
    ensures
        sanitized(value).len() <= MAX_DEVICE_NAME_CHARS,
        forall|i: int|
            0 <= i < sanitized(value).len() ==> !is_control_char(#[trigger] sanitized(value)[i]),
{
    lemma_kept_are_no_controls(trimmed(value));
    let kept = without_controls(trimmed(value));
    assert forall|i: int| 0 <= i < sanitized(value).len() implies !is_control_char(
        #[trigger] sanitized(value)[i],
    ) by {
        assert(sanitized(value)[i] == kept[i]);
    }
}

/// Making a device name fit a second time does no more than trim it: only white
/// space that the removal of control characters, or the cut, has left at an end
/// can still go.
pub proof fn law_sanitizing_twice_only_trims(value: Seq<char>)
    ensures
        sanitized(sanitized(value)) == trimmed(sanitized(value)),
{
    law_device_name_is_bounded_and_printable(value);
    let name = sanitized(value);
    let from = lemma_trimmed_is_stretch(name);
    assert forall|i: int| 0 <= i < trimmed(name).len() implies !is_control_char(
        #[trigger] trimmed(name)[i],
    ) by {
        assert(trimmed(name)[i] == name[from + i]);
    }
    lemma_nothing_to_remove(trimmed(name));
}

/// A text that is trimmed, printable and short enough is its own device name.
pub proof fn law_fit_name_is_kept(value: Seq<char>)
    requires
        trimmed(value) == value,
        value.len() <= MAX_DEVICE_NAME_CHARS,
        forall|i: int| 0 <= i < value.len() ==> !is_control_char(#[trigger] value[i]),
    ensures
        sanitized(value) == value,
{
    lemma_nothing_to_remove(value);
}

/// A custom name that is not empty once made fit overrides the host's name; an
/// empty one restores it; and some name is always shown.
pub proof fn law_custom_name_overrides_and_empty_restores(
    custom_name: Seq<char>,
    system_hostname: Seq<char>,
)
    ensures
        sanitized(custom_name).len() > 0 ==> display_name(custom_name, system_hostname)
            == sanitized(custom_name),
        sanitized(custom_name).len() == 0 && sanitized(system_hostname).len() > 0 ==> display_name(
            custom_name,
            system_hostname,
        ) == sanitized(system_hostname),
        0 < display_name(custom_name, system_hostname).len() <= MAX_DEVICE_NAME_CHARS,
        forall|i: int|
            0 <= i < display_name(custom_name, system_hostname).len() ==> !is_control_char(
                #[trigger] display_name(custom_name, system_hostname)[i],
            ),
{
    reveal_strlit("SubnetDesk");
    law_device_name_is_bounded_and_printable(custom_name);
    law_device_name_is_bounded_and_printable(system_hostname);
}

/// The device name that a text makes: the white space at both ends goes; of what is
/// between, the characters that are no control characters stay, in their order, up
/// to 64 of them.
pub proof fn law_device_name_of_a_text(front: Seq<char>, text: Seq<char>, back: Seq<char>)
    requires
        forall|i: int| 0 <= i < front.len() ==> is_white_space(#[trigger] front[i]),
        forall|i: int| 0 <= i < back.len() ==> is_white_space(#[trigger] back[i]),
        text.len() > 0 ==> !is_white_space(text[0]) && !is_white_space(text[text.len() - 1]),
    ensures
        ({
            let kept = text.filter(|c: char| !is_control_char(c));
            let name = sanitized(front + text + back);
            &&& kept.len() <= 64 ==> name == kept
            &&& kept.len() > 64 ==> name == kept.take(64)
        }),
{
    law_trimming_takes_white_space_off_both_ends(front, text, back);
}

/// Where neither name leaves anything to show, a fixed name is shown.
pub proof fn law_nameless_device_has_a_fixed_name(
    custom_name: Seq<char>,
    system_hostname: Seq<char>,
)
    requires
        sanitized(custom_name).len() == 0,
        sanitized(system_hostname).len() == 0,
    ensures
        display_name(custom_name, system_hostname) == "SubnetDesk"@,
{
}

} // verus!
