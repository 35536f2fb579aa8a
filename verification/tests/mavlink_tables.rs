//! Checksums and the message table.

use rmr::mavlink::crc::{crc16_mcrf4xx, Crc16, CRC_INIT};
use rmr::mavlink::crc_extra::{crc_extra_for_message, CrcExtraField};
use rmr::mavlink::msgid_table::{lookup, sorted};

fn f(name: &'static str, wire_type: &'static str) -> CrcExtraField<'static> {
    CrcExtraField {
        name,
        wire_type,
        array_length: 0,
        is_extension: false,
    }
}

fn fx(name: &'static str, wire_type: &'static str) -> CrcExtraField<'static> {
    CrcExtraField {
        name,
        wire_type,
        array_length: 0,
        is_extension: true,
    }
}

fn fa(name: &'static str, wire_type: &'static str, len: u8) -> CrcExtraField<'static> {
    CrcExtraField {
        name,
        wire_type,
        array_length: len,
        is_extension: false,
    }
}

#[test]
fn streaming_matches_one_shot() {
    let mut c = Crc16::new();
    c.update_slice(b"123456789");
    assert_eq!(c.finalize(), 0x6F91);
}

#[test]
fn streaming_byte_by_byte() {
    let mut c = Crc16::new();
    for &b in b"123456789" {
        c.update(b);
    }
    assert_eq!(c.finalize(), 0x6F91);
}

#[test]
fn empty_returns_init() {
    let c = Crc16::new();
    assert_eq!(c.finalize(), 0xFFFF);
}

#[test]
fn crc16_check_vector() {
    assert_eq!(crc16_mcrf4xx(b"123456789"), 0x6F91);
}

#[test]
fn crc16_init_empty() {
    assert_eq!(crc16_mcrf4xx(b""), CRC_INIT);
}

#[test]
fn crc_extra_heartbeat() {
    let fields = &[
        f("type", "uint8_t"),
        f("autopilot", "uint8_t"),
        f("base_mode", "uint8_t"),
        f("custom_mode", "uint32_t"),
        f("system_status", "uint8_t"),
        f("mavlink_version", "uint8_t_mavlink_version"),
    ];
    assert_eq!(crc_extra_for_message("HEARTBEAT", fields), 50);
}

#[test]
fn crc_extra_sys_status() {
    let fields = &[
        f("onboard_control_sensors_present", "uint32_t"),
        f("onboard_control_sensors_enabled", "uint32_t"),
        f("onboard_control_sensors_health", "uint32_t"),
        f("load", "uint16_t"),
        f("voltage_battery", "uint16_t"),
        f("current_battery", "int16_t"),
        f("battery_remaining", "int8_t"),
        f("drop_rate_comm", "uint16_t"),
        f("errors_comm", "uint16_t"),
        f("errors_count1", "uint16_t"),
        f("errors_count2", "uint16_t"),
        f("errors_count3", "uint16_t"),
        f("errors_count4", "uint16_t"),
        fx("onboard_control_sensors_present_extended", "uint32_t"),
        fx("onboard_control_sensors_enabled_extended", "uint32_t"),
        fx("onboard_control_sensors_health_extended", "uint32_t"),
    ];
    assert_eq!(crc_extra_for_message("SYS_STATUS", fields), 124);
}

#[test]
fn crc_extra_system_time() {
    let fields = &[
        f("time_unix_usec", "uint64_t"),
        f("time_boot_ms", "uint32_t"),
    ];
    assert_eq!(crc_extra_for_message("SYSTEM_TIME", fields), 137);
}

#[test]
fn crc_extra_ping() {
    let fields = &[
        f("time_usec", "uint64_t"),
        f("seq", "uint32_t"),
        f("target_system", "uint8_t"),
        f("target_component", "uint8_t"),
    ];
    assert_eq!(crc_extra_for_message("PING", fields), 237);
}

#[test]
fn crc_extra_attitude() {
    let fields = &[
        f("time_boot_ms", "uint32_t"),
        f("roll", "float"),
        f("pitch", "float"),
        f("yaw", "float"),
        f("rollspeed", "float"),
        f("pitchspeed", "float"),
        f("yawspeed", "float"),
    ];
    assert_eq!(crc_extra_for_message("ATTITUDE", fields), 39);
}

#[test]
fn crc_extra_gps_status_arrays() {
    let fields = &[
        f("satellites_visible", "uint8_t"),
        fa("satellite_prn", "uint8_t", 20),
        fa("satellite_used", "uint8_t", 20),
        fa("satellite_elevation", "uint8_t", 20),
        fa("satellite_azimuth", "uint8_t", 20),
        fa("satellite_snr", "uint8_t", 20),
    ];
    assert_eq!(crc_extra_for_message("GPS_STATUS", fields), 23);
}

#[test]
fn heartbeat() {
    let entry = lookup(0).expect("HEARTBEAT (id 0) must be in the table");
    assert_eq!(entry.crc_extra, 50);
    assert_eq!(entry.target_sys_offset, None);
    assert_eq!(entry.target_comp_offset, None);
}

#[test]
fn sys_status() {
    let entry = lookup(1).expect("SYS_STATUS (id 1) must be in the table");
    assert_eq!(entry.crc_extra, 124);
    assert_eq!(entry.target_sys_offset, None);
}

#[test]
fn ping_target_offsets() {
    let entry = lookup(4).expect("PING (id 4) must be in the table");
    assert_eq!(entry.crc_extra, 237);
    // Wire order: time_usec (u64, 0..8), seq (u32, 8..12),
    //             target_system (u8, 12), target_component (u8, 13).
    assert_eq!(entry.target_sys_offset, Some(12));
    assert_eq!(entry.target_comp_offset, Some(13));
}

#[test]
fn attitude() {
    let entry = lookup(30).expect("ATTITUDE (id 30) must be in the table");
    assert_eq!(entry.crc_extra, 39);
    assert_eq!(entry.target_sys_offset, None);
}

#[test]
fn unknown_msgid_returns_none() {
    assert!(lookup(0x00FF_FFFF).is_none());
}

#[test]
fn sorted_invariant() {
    let mut prev: Option<u32> = None;
    for (id, _) in sorted() {
        if let Some(prev_id) = prev {
            assert!(
                *id > prev_id,
                "SORTED not sorted by msgid: {prev_id} then {id}"
            );
        }
        prev = Some(*id);
    }
}

#[test]
fn param_request_list_targets_at_start() {
    let entry = lookup(21).expect("PARAM_REQUEST_LIST (id 21) must be in the table");
    // Two uint8_t fields, stable size-sort preserves their declaration order.
    assert_eq!(entry.target_sys_offset, Some(0));
    assert_eq!(entry.target_comp_offset, Some(1));
}

#[test]
fn command_long_targets() {
    let entry = lookup(76).expect("COMMAND_LONG (id 76) must be in the table");
    // Wire sort: 7 floats (28 bytes), command u16 (2), then the three u8s:
    // target_system (30), target_component (31), confirmation (32).
    assert_eq!(entry.target_sys_offset, Some(30));
    assert_eq!(entry.target_comp_offset, Some(31));
}

#[test]
fn change_operator_control_has_sys_but_not_comp() {
    // CHANGE_OPERATOR_CONTROL (id 5) is the only standard targeted message
    // that has target_system without target_component — exercises the
    // half-target offset branch end to end.
    let entry = lookup(5).expect("CHANGE_OPERATOR_CONTROL (id 5) must be in the table");
    assert_eq!(entry.target_sys_offset, Some(0));
    assert_eq!(entry.target_comp_offset, None);
}

#[test]
fn table_is_nonempty() {
    // common.xml alone is ~230 messages; with ardupilotmega we should be
    // well over 300. A small number means that messages were dropped.
    assert!(
        sorted().len() > 200,
        "msgid table too small: {}",
        sorted().len()
    );
}

#[test]
fn only_the_order_among_equal_sizes_counts() {
    let defined = [
        f("type", "uint8_t"),
        f("custom_mode", "uint32_t"),
        fx("later", "uint64_t"),
        f("mavlink_version", "uint8_t_mavlink_version"),
        fa("values", "uint16_t", 3),
    ];
    let other = [
        fa("values", "uint16_t", 3),
        f("type", "uint8_t"),
        f("mavlink_version", "uint8_t"),
        f("custom_mode", "uint32_t"),
    ];
    let swapped = [
        fa("values", "uint16_t", 3),
        f("mavlink_version", "uint8_t"),
        f("type", "uint8_t"),
        f("custom_mode", "uint32_t"),
    ];
    let byte = crc_extra_for_message("SAMPLE", &defined);
    assert_eq!(byte, crc_extra_for_message("SAMPLE", &other));
    assert_ne!(byte, crc_extra_for_message("SAMPLE", &swapped));
}
