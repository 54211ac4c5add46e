//! Decision logic of the lights consumer: colour conversion, the bridge
//! URLs, the interpretation of the bridge's authentication answer, and
//! the text fed to the command interpreter.  The HTTP calls themselves
//! are input/output and live in the binary around this library.

use vstd::prelude::*;
use crate::numfmt::dec_digits;
use crate::numfmt::u64_to_string;

verus! {

/// Authentication state of the lights bridge.
#[derive(Debug, Clone, Copy, PartialEq, Eq, Structural)]
pub enum HueAuthState {
    Unauthenticated,
    AwaitingButtonPress,
    Authenticated,
}

/// The larger of three channel values; ties go to red, then green, as the
/// conversion's branch order expects.
pub open spec fn max3(r: int, g: int, b: int) -> int {
    if r >= g && r >= b {
        r
    } else if g >= b {
        g
    } else {
        b
    }
}

/// The smaller of three channel values.
pub open spec fn min3(r: int, g: int, b: int) -> int {
    if r <= g && r <= b {
        r
    } else if g <= b {
        g
    } else {
        b
    }
}

/// The hue scaled to [0, 65535], rounding half up, computed exactly over
/// the rationals.  With delta = max - min, the hue angle in degrees is
/// 60 * (num / delta) for a case-dependent numerator, and the result is
/// round(65535 * num / (6 * delta)); a grey (delta == 0) has hue 0.
pub open spec fn hue_spec(r: int, g: int, b: int) -> int {
    let mx = max3(r, g, b);
    let mn = min3(r, g, b);
    let d = mx - mn;
    if d == 0 {
        0
    } else {
        let num = if mx == r {
            if g >= b {
                g - b
            } else {
                g - b + 6 * d
            }
        } else if mx == g {
            b - r + 2 * d
        } else {
            r - g + 4 * d
        };
        (2 * 65535 * num + 6 * d) / (12 * d)
    }
}

/// The saturation scaled to [0, 254], rounding half up: round(254 * d / mx),
/// and 0 for black.
pub open spec fn sat_spec(r: int, g: int, b: int) -> int {
    let mx = max3(r, g, b);
    let mn = min3(r, g, b);
    let d = mx - mn;
    if mx == 0 {
        0
    } else {
        (2 * 254 * d + mx) / (2 * mx)
    }
}

/// The brightness scaled to [1, 254], rounding half up:
/// round(253 * mx / 255 + 1).
pub open spec fn bri_spec(r: int, g: int, b: int) -> int {
    let mx = max3(r, g, b);
    (506 * mx + 765) / 510
}

/// Convert an RGB colour to the bridge's hue/saturation/brightness
/// scales.  The arithmetic is exact over the rationals with half-up
/// rounding, which the contracts pin digit for digit.
pub fn rgb_to_hsv(r: u8, g: u8, b: u8) -> (out: (u16, u8, u8))
    ensures
        out.0 == hue_spec(r as int, g as int, b as int),
        out.1 == sat_spec(r as int, g as int, b as int),
        out.2 == bri_spec(r as int, g as int, b as int),
{
    let mx: u64 = if r >= g && r >= b {
        r as u64
    } else if g >= b {
        g as u64
    } else {
        b as u64
    };
    let mn: u64 = if r <= g && r <= b {
        r as u64
    } else if g <= b {
        g as u64
    } else {
        b as u64
    };
    let d: u64 = mx - mn;
    let hue: u64 = if d == 0 {
        0
    } else {
        let num: u64 = if mx == r as u64 {
            if g >= b {
                (g - b) as u64
            } else {
                (g as u64 + 6 * d) - b as u64
            }
        } else if mx == g as u64 {
            (b as u64 + 2 * d) - r as u64
        } else {
            (r as u64 + 4 * d) - g as u64
        };
        proof {
            lemma_hue_fits(r as int, g as int, b as int, num as int, d as int);
            assert(d <= 255);
            assert(num <= 6 * 255 - 1);
            assert(2 * 65535 * (num as int) <= 2 * 65535 * 1529) by (nonlinear_arith)
                requires
                    0 <= num <= 1529,
            ;
        }
        (2 * 65535 * num + 6 * d) / (12 * d)
    };
    let sat: u64 = if mx == 0 {
        0
    } else {
        proof {
            assert(mx <= 255 && d <= mx);
            assert(2 * 254 * (d as int) <= 2 * 254 * 255) by (nonlinear_arith)
                requires
                    0 <= d <= 255,
            ;
            assert((2 * 254 * (d as int) + mx) / (2 * (mx as int)) <= 254) by (nonlinear_arith)
                requires
                    0 < mx <= 255,
                    0 <= d <= mx,
            ;
        }
        (2 * 254 * d + mx) / (2 * mx)
    };
    proof {
        assert((506 * (mx as int) + 765) / 510 <= 254) by (nonlinear_arith)
            requires
                mx <= 255,
        ;
        assert((506 * (mx as int) + 765) / 510 >= 1) by (nonlinear_arith)
            requires
                mx >= 0,
        ;
    }
    let bri: u64 = (506 * mx + 765) / 510;
    (hue as u16, sat as u8, bri as u8)
}

/// The scaled hue stays within a u16.
proof fn lemma_hue_fits(r: int, g: int, b: int, num: int, d: int)
    requires
        0 <= r <= 255 && 0 <= g <= 255 && 0 <= b <= 255,
        d == max3(r, g, b) - min3(r, g, b),
        d > 0,
        num == (if max3(r, g, b) == r {
            if g >= b {
                g - b
            } else {
                g - b + 6 * d
            }
        } else if max3(r, g, b) == g {
            b - r + 2 * d
        } else {
            r - g + 4 * d
        }),
    ensures
        0 <= num <= 6 * d - 1,
        0 <= (2 * 65535 * num + 6 * d) / (12 * d) <= 65535,
{
    let mx = max3(r, g, b);
    let mn = min3(r, g, b);
    assert(mn <= r <= mx && mn <= g <= mx && mn <= b <= mx);
    assert(0 <= num <= 6 * d - 1);
    assert(2 * 65535 * num + 6 * d < 65536 * (12 * d)) by (nonlinear_arith)
        requires
            0 <= num <= 6 * d - 1,
            d > 0,
    ;
    assert((2 * 65535 * num + 6 * d) / (12 * d) < 65536) by (nonlinear_arith)
        requires
            d > 0,
            2 * 65535 * num + 6 * d >= 0,
            2 * 65535 * num + 6 * d < 65536 * (12 * d),
    ;
    assert((2 * 65535 * num + 6 * d) / (12 * d) >= 0) by (nonlinear_arith)
        requires
            d > 0,
            2 * 65535 * num + 6 * d >= 0,
    ;
}

/// One light update the command interpreter asked for.
#[derive(Debug, Clone)]
pub struct LightUpdate {
    pub light_id: u32,
    pub red: Option<u8>,
    pub green: Option<u8>,
    pub blue: Option<u8>,
    pub brightness: Option<u8>,
    pub on: Option<bool>,
}

/// The colour part of a bridge state command.
#[derive(Debug, Clone, Copy, PartialEq, Eq, Structural)]
pub enum ColorCommand {
    /// Set hue, saturation and brightness, converted from a full colour.
    HueSatBri(u16, u8, u8),
    /// Set brightness alone.
    Bri(u8),
    /// Leave the colour untouched.
    NoColor,
}

/// The body of a bridge state command: the optional power toggle and the
/// colour part.  A full RGB triple wins over a bare brightness; anything
/// less leaves the colour alone.
pub fn plan_light_update(update: &LightUpdate) -> (out: (Option<bool>, ColorCommand))
    ensures
        out.0 == update.on,
        match (update.red, update.green, update.blue) {
            (Some(r), Some(g), Some(b)) => out.1 == ColorCommand::HueSatBri(
                hue_spec(r as int, g as int, b as int) as u16,
                sat_spec(r as int, g as int, b as int) as u8,
                bri_spec(r as int, g as int, b as int) as u8,
            ),
            _ => match update.brightness {
                Some(v) => out.1 == ColorCommand::Bri(v),
                None => out.1 == ColorCommand::NoColor,
            },
        },
{
    let color = if let (Some(r), Some(g), Some(b)) = (update.red, update.green, update.blue) {
        let (h, s, v) = rgb_to_hsv(r, g, b);
        ColorCommand::HueSatBri(h, s, v)
    } else if let Some(v) = update.brightness {
        ColorCommand::Bri(v)
    } else {
        ColorCommand::NoColor
    };
    (update.on, color)
}

/// The bridge URL that sets one light's state.
pub fn hue_state_url(bridge_ip: &str, username: &str, light_id: u32) -> (url: String)
    ensures
        url@ == "https://"@ + bridge_ip@ + "/api/"@ + username@ + "/lights/"@ + dec_digits(
            light_id as nat,
        ) + "/state"@,
{
    let mut url = String::from_str("https://");
    url.append(bridge_ip);
    url.append("/api/");
    url.append(username);
    url.append("/lights/");
    let id = u64_to_string(light_id as u64);
    url.append(id.as_str());
    url.append("/state");
    url
}

/// The bridge URL that requests an API username.
pub fn hue_auth_url(bridge_ip: &str) -> (url: String)
    ensures
        url@ == "https://"@ + bridge_ip@ + "/api"@,
{
    let mut url = String::from_str("https://");
    url.append(bridge_ip);
    url.append("/api");
    url
}

/// The bridge URL that lists the lights.
pub fn hue_lights_url(bridge_ip: &str, username: &str) -> (url: String)
    ensures
        url@ == "https://"@ + bridge_ip@ + "/api/"@ + username@ + "/lights"@,
{
    let mut url = String::from_str("https://");
    url.append(bridge_ip);
    url.append("/api/");
    url.append(username);
    url.append("/lights");
    url
}

/// The bridge's answer to an authentication request, reduced to what the
/// decision needs: a granted username, or an error with its numeric type
/// and description, or anything else.
pub enum HueAuthResponse {
    Success { username: String },
    ErrorInfo { error_type: i64, description: String },
    Other,
}

/// What to do with the bridge's authentication answer.
pub struct HueAuthPlan {
    /// The authentication state to move to, if it changes.
    pub next_state: Option<HueAuthState>,
    /// The line to append to the activity log.
    pub log_line: String,
    /// The username to store and persist, if one was granted.
    pub save_username: Option<String>,
}

/// Interpret the bridge's authentication answer: a granted username
/// authenticates and is persisted; error 101 means the link button was
/// not pressed and moves to waiting for it; other errors and malformed
/// answers only log.
pub fn interpret_hue_auth_response(resp: HueAuthResponse) -> (plan: HueAuthPlan)
    ensures
        match resp {
            HueAuthResponse::Success { username } => plan.next_state == Some(
                HueAuthState::Authenticated,
            ) && plan.save_username == Some(username) && plan.log_line@
                == "Successfully authenticated with Hue bridge."@,
            HueAuthResponse::ErrorInfo { error_type, description } => plan.save_username
                is None && (if error_type == 101 {
                plan.next_state == Some(HueAuthState::AwaitingButtonPress) && plan.log_line@
                    == "Please press the link button on the Hue bridge."@
            } else {
                plan.next_state is None && plan.log_line@
                    == "Error authenticating with Hue bridge: "@ + description@
            }),
            HueAuthResponse::Other => plan.next_state is None && plan.save_username is None
                && plan.log_line@ == "Unknown response from Hue bridge."@,
        },
{
    match resp {
        HueAuthResponse::Success { username } => HueAuthPlan {
            next_state: Some(HueAuthState::Authenticated),
            log_line: String::from_str("Successfully authenticated with Hue bridge."),
            save_username: Some(username),
        },
        HueAuthResponse::ErrorInfo { error_type, description } => {
            if error_type == 101 {
                HueAuthPlan {
                    next_state: Some(HueAuthState::AwaitingButtonPress),
                    log_line: String::from_str("Please press the link button on the Hue bridge."),
                    save_username: None,
                }
            } else {
                let mut line = String::from_str("Error authenticating with Hue bridge: ");
                line.append(description.as_str());
                HueAuthPlan { next_state: None, log_line: line, save_username: None }
            }
        },
        HueAuthResponse::Other => HueAuthPlan {
            next_state: None,
            log_line: String::from_str("Unknown response from Hue bridge."),
            save_username: None,
        },
    }
}

/// The instruction text handed to the command interpreter before the
/// light list.
pub const PROMPT_HEAD: &'static str = "You are a light controlling robot.\nYour job is to detect when a user is instructing you to change the lights.\n\n";

/// The schema and transcript framing between the light list and the
/// transcript.
pub const PROMPT_MIDDLE: &'static str = "\n\nYour output should have the following structure.\n{\n    \"light_updates\": [ {\n        \"light_id\": number,\n        \"red\": number (0-255),\n        \"green\": number (0-255),\n        \"blue\": number (0-255),\n        \"brightness\": number (1-254),\n        \"on\": bool\n    } ]\n}\n\nIf it seems like the user is not talking to the robot, then an empty array should be returned for the \"light_updates\" property.\n\nTranscript:\n\"";

/// The closing framing after the transcript.
pub const PROMPT_TAIL: &'static str = "\"\n\nRespond only with the JSON output.\n";

/// The whole prompt for the lights command interpreter: the instruction
/// head, the light list, the schema framing, the quoted transcript, and
/// the closing line.
pub fn build_lights_prompt(light_list: &str, transcript: &str) -> (out: String)
    ensures
        out@ == PROMPT_HEAD@ + light_list@ + PROMPT_MIDDLE@ + transcript@ + PROMPT_TAIL@,
{
    let mut out = String::from_str(PROMPT_HEAD);
    out.append(light_list);
    out.append(PROMPT_MIDDLE);
    out.append(transcript);
    out.append(PROMPT_TAIL);
    out
}

/// One line of the light list: "id: name".
pub open spec fn light_line_chars(id: u32, name: Seq<char>) -> Seq<char> {
    dec_digits(id as nat) + ": "@ + name
}

/// The lines after the first, each preceded by a newline.
pub open spec fn light_list_tail(ls: Seq<(u32, String)>) -> Seq<char>
    decreases ls.len(),
{
    if ls.len() == 0 {
        Seq::empty()
    } else {
        seq!['\n'] + light_line_chars(ls[0].0, ls[0].1@) + light_list_tail(ls.drop_first())
    }
}

/// The whole light list, one light per line.
pub open spec fn light_list_chars(ls: Seq<(u32, String)>) -> Seq<char> {
    if ls.len() == 0 {
        Seq::empty()
    } else {
        light_line_chars(ls[0].0, ls[0].1@) + light_list_tail(ls.drop_first())
    }
}

proof fn lemma_light_list_tail_snoc(ls: Seq<(u32, String)>, x: (u32, String))
    ensures
        light_list_tail(ls.push(x)) == light_list_tail(ls) + seq!['\n'] + light_line_chars(
            x.0,
            x.1@,
        ),
    decreases ls.len(),
{
    if ls.len() == 0 {
        assert(ls.push(x)[0] == x);
        assert(ls.push(x).drop_first() =~= Seq::<(u32, String)>::empty());
        assert(light_list_tail(ls.push(x)) == seq!['\n'] + light_line_chars(x.0, x.1@)
            + light_list_tail(Seq::<(u32, String)>::empty()));
        assert(seq!['\n'] + light_line_chars(x.0, x.1@) + Seq::<char>::empty() =~= seq!['\n']
            + light_line_chars(x.0, x.1@));
        assert(light_list_tail(ls) + seq!['\n'] + light_line_chars(x.0, x.1@) =~= seq!['\n']
            + light_line_chars(x.0, x.1@));
    } else {
        lemma_light_list_tail_snoc(ls.drop_first(), x);
        assert(ls.push(x).drop_first() =~= ls.drop_first().push(x));
        assert(ls.push(x)[0] == ls[0]);
        assert(seq!['\n'] + light_line_chars(ls[0].0, ls[0].1@) + (light_list_tail(ls.drop_first())
            + seq!['\n'] + light_line_chars(x.0, x.1@)) =~= (seq!['\n'] + light_line_chars(
            ls[0].0,
            ls[0].1@,
        ) + light_list_tail(ls.drop_first())) + seq!['\n'] + light_line_chars(x.0, x.1@));
    }
}

/// Render one light's line.
fn light_line(id: u32, name: &String) -> (out: String)
    ensures
        out@ == light_line_chars(id, name@),
{
    let mut out = u64_to_string(id as u64);
    out.append(": ");
    out.append(name.as_str());
    proof {
        assert(out@ =~= light_line_chars(id, name@));
    }
    out
}

/// Render the light list for the command interpreter's prompt: one light
/// per line, "id: name", in the given order.
pub fn format_light_list(lights: &Vec<(u32, String)>) -> (out: String)
    ensures
        out@ == light_list_chars(lights@),
{
    let mut out = String::new();
    if lights.len() == 0 {
        proof {
            assert(out@ =~= light_list_chars(lights@));
        }
        return out;
    }
    let first = light_line(lights[0].0, &lights[0].1);
    out.append(first.as_str());
    proof {
        assert(lights@.subrange(1, 1) =~= Seq::<(u32, String)>::empty());
        assert(out@ =~= light_line_chars(lights@[0].0, lights@[0].1@) + light_list_tail(
            lights@.subrange(1, 1),
        ));
    }
    let mut i: usize = 1;
    while i < lights.len()
        invariant
            1 <= i <= lights@.len(),
            out@ == light_line_chars(lights@[0].0, lights@[0].1@) + light_list_tail(
                lights@.subrange(1, i as int),
            ),
        decreases lights@.len() - i,
    {
        out.append("\n");
        let line = light_line(lights[i].0, &lights[i].1);
        out.append(line.as_str());
        proof {
            reveal_strlit("\n");
            assert(lights@.subrange(1, i + 1 as int) =~= lights@.subrange(1, i as int).push(
                lights@[i as int],
            ));
            lemma_light_list_tail_snoc(lights@.subrange(1, i as int), lights@[i as int]);
            assert(out@ =~= light_line_chars(lights@[0].0, lights@[0].1@) + light_list_tail(
                lights@.subrange(1, i + 1 as int),
            ));
        }
        i = i + 1;
    }
    proof {
        assert(lights@.subrange(1, lights@.len() as int) =~= lights@.drop_first());
    }
    out
}

} // verus!
