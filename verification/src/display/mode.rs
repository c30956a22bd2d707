//! Which submodule owns the screen, and the switches of the renderers.

use crate::query::{find_parameter, law_first_parameter_is_found, parameter};
use crate::text::{chars_of, law_split_once_cuts_at_the_first, same, split, split_at_char};
use vstd::prelude::*;

verus! {

/// Text and solid colours on request.
pub const MODE_BASIC: u8 = 0;

/// The rotating cube.
pub const MODE_RENDERER: u8 = 1;

/// What `GET /api/display/mode` asks for.
pub open spec fn requested_setting(uri: Seq<char>) -> Seq<char> {
    let parts = split(uri, '?');
    if parts.len() < 2 {
        "basic"@
    } else {
        match parameter(parts[1], "set="@) {
            Some(s) => s,
            None => "basic"@,
        }
    }
}

/// The mode that a setting stands for: all but one mean the basic mode.
pub open spec fn mode_of(setting: Seq<char>) -> u8 {
    if setting == "renderer"@ {
        MODE_RENDERER
    } else {
        MODE_BASIC
    }
}

/// The JSON object with a mode.
pub open spec fn mode_text(mode: u8) -> Seq<char> {
    if mode == MODE_RENDERER {
        "{\"mode\":\"renderer\"}"@
    } else {
        "{\"mode\":\"basic\"}"@
    }
}

/// Answers `GET /api/display/mode?set=basic|renderer`: sets the mode.
pub fn set_mode(mode: &mut u8, uri: &str) -> (r: &'static str)
    ensures
        *final(mode) == mode_of(requested_setting(uri@)),
        r@ == mode_text(*final(mode)),
{
    let chars = chars_of(uri);
    let parts = split_at_char(&chars, '?');
    let renderer = chars_of("renderer");
    let mut selected: bool = false;
    proof {
        reveal_strlit("basic");
        reveal_strlit("renderer");
        assert("basic"@.len() != "renderer"@.len());
    }
    if parts.len() >= 2 {
        if let Some(setting) = find_parameter(&parts[1], "set=") {
            selected = same(&setting, &renderer);
        }
    }
    if selected {
        *mode = MODE_RENDERER;
        "{\"mode\":\"renderer\"}"
    } else {
        *mode = MODE_BASIC;
        "{\"mode\":\"basic\"}"
    }
}

/// Answers the start and stop endpoints of a renderer: sets whether it is running.
pub fn set_running(running: &mut bool, run: bool) -> (r: &'static str)
    ensures
        *final(running) == run,
        r@ == (if run {
            "{\"running\":true}"@
        } else {
            "{\"running\":false}"@
        }),
{
    *running = run;
    if run {
        "{\"running\":true}"
    } else {
        "{\"running\":false}"
    }
}

/// The mode is the one that is asked for: `renderer` gives the screen to the renderer, and every
/// other setting, or none, to text and colours.
pub proof fn law_requested_mode_is_set(path: Seq<char>, setting: Seq<char>)
    requires
        !path.contains('?'),
        !setting.contains('?'),
        !setting.contains('&'),
    ensures
        mode_of(requested_setting(path + seq!['?'] + ("set="@ + setting))) == 1 <==> setting
            == "renderer"@,
        mode_of(requested_setting(path + seq!['?'] + ("set="@ + setting))) == 0 <==> setting
            != "renderer"@,
        mode_of(requested_setting(path)) == 0,
{
    reveal_strlit("set=");
    reveal_strlit("basic");
    reveal_strlit("renderer");
    assert("basic"@.len() != "renderer"@.len());
    let query = "set="@ + setting;
    law_split_once_cuts_at_the_first(path, '?', query);
    assert(!query.contains('?')) by {
        assert forall|i: int| 0 <= i < query.len() implies query[i] != '?' by {
            if i >= 4 {
                assert(setting.contains(query[i]));
            }
        }
    }
    law_split_once_cuts_at_the_first(query, '?', Seq::empty());
    let uri = path + seq!['?'] + query;
    let parts = split(uri, '?');
    assert(split(query, '?') == seq![query]);
    assert(query.len() < uri.len());
    assert(parts == seq![path] + split(query, '?'));
    assert(parts[1] == query);
    assert(!"set="@.contains('&'));
    law_first_parameter_is_found("set="@, setting, Seq::empty());
}

/// The answer names the mode that was set.
pub proof fn law_answer_names_the_mode(mode: u8)
    requires
        mode == 0 || mode == 1,
    ensures
        mode == 1 <==> mode_text(mode) == "{\"mode\":\"renderer\"}"@,
        mode == 0 <==> mode_text(mode) == "{\"mode\":\"basic\"}"@,
{
    reveal_strlit("{\"mode\":\"renderer\"}");
    reveal_strlit("{\"mode\":\"basic\"}");
    assert("{\"mode\":\"renderer\"}"@.len() != "{\"mode\":\"basic\"}"@.len());
}

/// A second question mark ends the setting.
pub proof fn law_second_mark_ends_the_setting(
    path: Seq<char>,
    setting: Seq<char>,
    more: Seq<char>,
)
    requires
        !path.contains('?'),
        !setting.contains('?'),
        !setting.contains('&'),
    ensures
        requested_setting(path + seq!['?'] + ("set="@ + setting + seq!['?'] + more)) == setting,
{
    reveal_strlit("set=");
    let query = "set="@ + setting;
    let long = query + seq!['?'] + more;
    assert(!query.contains('?')) by {
        assert forall|i: int| 0 <= i < query.len() implies query[i] != '?' by {
            if i >= 4 {
                assert(setting.contains(query[i]));
            }
        }
    }
    law_split_once_cuts_at_the_first(path, '?', long);
    law_split_once_cuts_at_the_first(query, '?', more);
    let uri = path + seq!['?'] + long;
    assert(more.len() < long.len() < uri.len());
    assert(split(long, '?') == seq![query] + split(more, '?'));
    assert(split(uri, '?') == seq![path] + split(long, '?'));
    assert(!"set="@.contains('&'));
    law_first_parameter_is_found("set="@, setting, Seq::empty());
}

} // verus!
