//! Colour conversion and the lights-consumer decision logic.

use mic::hue::{
    build_lights_prompt, format_light_list, hue_auth_url, hue_lights_url, hue_state_url,
    interpret_hue_auth_response, plan_light_update, rgb_to_hsv, ColorCommand, HueAuthResponse,
    HueAuthState, LightUpdate, PROMPT_HEAD, PROMPT_MIDDLE, PROMPT_TAIL,
};

#[test]
fn primary_colours_convert_exactly() {
    // Red is hue 0, green one third and blue two thirds of the hue wheel,
    // all fully saturated and at full brightness.
    assert_eq!(rgb_to_hsv(255, 0, 0), (0, 254, 254));
    assert_eq!(rgb_to_hsv(0, 255, 0), (21845, 254, 254));
    assert_eq!(rgb_to_hsv(0, 0, 255), (43690, 254, 254));
    // Yellow sits at 60 degrees: 65535 / 6 = 10922.5, rounded half up.
    assert_eq!(rgb_to_hsv(255, 255, 0), (10923, 254, 254));
}

#[test]
fn greys_have_no_hue_and_no_saturation() {
    assert_eq!(rgb_to_hsv(0, 0, 0), (0, 0, 1));
    assert_eq!(rgb_to_hsv(255, 255, 255), (0, 0, 254));
    assert_eq!(rgb_to_hsv(128, 128, 128), (0, 0, 128));
}

#[test]
fn brightness_scales_into_one_to_254() {
    let (_, _, bri_black) = rgb_to_hsv(0, 0, 0);
    assert_eq!(bri_black, 1);
    let (_, _, bri_half) = rgb_to_hsv(128, 0, 0);
    // round(253 * 128 / 255 + 1) = round(128.0) = 128
    assert_eq!(bri_half, 128);
}

#[test]
fn full_colour_beats_bare_brightness() {
    let update = LightUpdate {
        light_id: 4,
        red: Some(255),
        green: Some(0),
        blue: Some(0),
        brightness: Some(9),
        on: Some(true),
    };
    let (on, color) = plan_light_update(&update);
    assert_eq!(on, Some(true));
    assert_eq!(color, ColorCommand::HueSatBri(0, 254, 254));
}

#[test]
fn partial_colour_falls_back_to_brightness() {
    let update = LightUpdate {
        light_id: 4,
        red: Some(255),
        green: None,
        blue: Some(0),
        brightness: Some(9),
        on: None,
    };
    let (on, color) = plan_light_update(&update);
    assert_eq!(on, None);
    assert_eq!(color, ColorCommand::Bri(9));
}

#[test]
fn no_colour_information_leaves_the_colour_alone() {
    let update = LightUpdate {
        light_id: 4,
        red: None,
        green: None,
        blue: None,
        brightness: None,
        on: Some(false),
    };
    let (on, color) = plan_light_update(&update);
    assert_eq!(on, Some(false));
    assert_eq!(color, ColorCommand::NoColor);
}

#[test]
fn bridge_urls_are_built_exactly() {
    assert_eq!(hue_auth_url("192.168.1.2"), "https://192.168.1.2/api");
    assert_eq!(
        hue_lights_url("192.168.1.2", "user1"),
        "https://192.168.1.2/api/user1/lights"
    );
    assert_eq!(
        hue_state_url("192.168.1.2", "user1", 7),
        "https://192.168.1.2/api/user1/lights/7/state"
    );
}

#[test]
fn granted_username_authenticates_and_persists() {
    let plan = interpret_hue_auth_response(HueAuthResponse::Success {
        username: String::from("granted-user"),
    });
    assert_eq!(plan.next_state, Some(HueAuthState::Authenticated));
    assert_eq!(plan.save_username, Some(String::from("granted-user")));
    assert_eq!(plan.log_line, "Successfully authenticated with Hue bridge.");
}

#[test]
fn error_101_waits_for_the_link_button() {
    let plan = interpret_hue_auth_response(HueAuthResponse::ErrorInfo {
        error_type: 101,
        description: String::from("link button not pressed"),
    });
    assert_eq!(plan.next_state, Some(HueAuthState::AwaitingButtonPress));
    assert_eq!(plan.save_username, None);
    assert_eq!(plan.log_line, "Please press the link button on the Hue bridge.");
}

#[test]
fn other_errors_only_log() {
    let plan = interpret_hue_auth_response(HueAuthResponse::ErrorInfo {
        error_type: 7,
        description: String::from("unreachable"),
    });
    assert_eq!(plan.next_state, None);
    assert_eq!(plan.log_line, "Error authenticating with Hue bridge: unreachable");
    let plan = interpret_hue_auth_response(HueAuthResponse::Other);
    assert_eq!(plan.next_state, None);
    assert_eq!(plan.log_line, "Unknown response from Hue bridge.");
}

#[test]
fn light_list_renders_one_line_per_light() {
    let lights: Vec<(u32, String)> = vec![
        (1, String::from("Desk")),
        (12, String::from("Ceiling")),
    ];
    assert_eq!(format_light_list(&lights), "1: Desk\n12: Ceiling");
    assert_eq!(format_light_list(&Vec::new()), "");
}

#[test]
fn prompt_frames_the_lights_and_transcript() {
    let prompt = build_lights_prompt("1: Desk", "make it blue");
    let expected =
        format!("{}{}{}{}{}", PROMPT_HEAD, "1: Desk", PROMPT_MIDDLE, "make it blue", PROMPT_TAIL);
    assert_eq!(prompt, expected);
    assert!(prompt.contains("light controlling robot"));
    assert!(prompt.contains("\"make it blue\""));
}
