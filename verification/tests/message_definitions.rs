//! The message table against the definitions of the messages.

use rmr::dialect::dialect_parse::parse_array_suffix;
use rmr::mavlink::crc_extra::{crc_extra_for_message, type_size, CrcExtraField};
use rmr::mavlink::msgid_table::{lookup, sorted};

/// Id, name and fields of every message of the `common` and `ardupilotmega` dialects that
/// the table holds. Fields are in the order of the definition; those after the semicolon
/// are extensions. Extensions are listed up to the last one that addresses a node.
const MESSAGES: &[(u32, &str, &str)] = &[
    (
        0,
        "HEARTBEAT",
        "uint8_t type, uint8_t autopilot, uint8_t base_mode, uint32_t custom_mode, uint8_t \
         system_status, uint8_t_mavlink_version mavlink_version",
    ),
    (
        1,
        "SYS_STATUS",
        "uint32_t onboard_control_sensors_present, uint32_t onboard_control_sensors_enabled, \
         uint32_t onboard_control_sensors_health, uint16_t load, uint16_t voltage_battery, \
         int16_t current_battery, int8_t battery_remaining, uint16_t drop_rate_comm, uint16_t \
         errors_comm, uint16_t errors_count1, uint16_t errors_count2, uint16_t errors_count3, \
         uint16_t errors_count4",
    ),
    (
        2,
        "SYSTEM_TIME",
        "uint64_t time_unix_usec, uint32_t time_boot_ms",
    ),
    (
        4,
        "PING",
        "uint64_t time_usec, uint32_t seq, uint8_t target_system, uint8_t target_component",
    ),
    (
        5,
        "CHANGE_OPERATOR_CONTROL",
        "uint8_t target_system, uint8_t control_request, uint8_t version, char[25] passkey",
    ),
    (
        6,
        "CHANGE_OPERATOR_CONTROL_ACK",
        "uint8_t gcs_system_id, uint8_t control_request, uint8_t ack",
    ),
    (
        7,
        "AUTH_KEY",
        "char[32] key",
    ),
    (
        8,
        "LINK_NODE_STATUS",
        "uint64_t timestamp, uint8_t tx_buf, uint8_t rx_buf, uint32_t tx_rate, uint32_t \
         rx_rate, uint16_t rx_parse_err, uint16_t tx_overflows, uint16_t rx_overflows, \
         uint32_t messages_sent, uint32_t messages_received, uint32_t messages_lost",
    ),
    (
        11,
        "SET_MODE",
        "uint8_t target_system, uint8_t base_mode, uint32_t custom_mode",
    ),
    (
        20,
        "PARAM_REQUEST_READ",
        "uint8_t target_system, uint8_t target_component, char[16] param_id, int16_t \
         param_index",
    ),
    (
        21,
        "PARAM_REQUEST_LIST",
        "uint8_t target_system, uint8_t target_component",
    ),
    (
        22,
        "PARAM_VALUE",
        "char[16] param_id, float param_value, uint8_t param_type, uint16_t param_count, \
         uint16_t param_index",
    ),
    (
        23,
        "PARAM_SET",
        "uint8_t target_system, uint8_t target_component, char[16] param_id, float \
         param_value, uint8_t param_type",
    ),
    (
        24,
        "GPS_RAW_INT",
        "uint64_t time_usec, uint8_t fix_type, int32_t lat, int32_t lon, int32_t alt, \
         uint16_t eph, uint16_t epv, uint16_t vel, uint16_t cog, uint8_t satellites_visible",
    ),
    (
        25,
        "GPS_STATUS",
        "uint8_t satellites_visible, uint8_t[20] satellite_prn, uint8_t[20] satellite_used, \
         uint8_t[20] satellite_elevation, uint8_t[20] satellite_azimuth, uint8_t[20] \
         satellite_snr",
    ),
    (
        26,
        "SCALED_IMU",
        "uint32_t time_boot_ms, int16_t xacc, int16_t yacc, int16_t zacc, int16_t xgyro, \
         int16_t ygyro, int16_t zgyro, int16_t xmag, int16_t ymag, int16_t zmag",
    ),
    (
        27,
        "RAW_IMU",
        "uint64_t time_usec, int16_t xacc, int16_t yacc, int16_t zacc, int16_t xgyro, int16_t \
         ygyro, int16_t zgyro, int16_t xmag, int16_t ymag, int16_t zmag",
    ),
    (
        28,
        "RAW_PRESSURE",
        "uint64_t time_usec, int16_t press_abs, int16_t press_diff1, int16_t press_diff2, \
         int16_t temperature",
    ),
    (
        29,
        "SCALED_PRESSURE",
        "uint32_t time_boot_ms, float press_abs, float press_diff, int16_t temperature",
    ),
    (
        30,
        "ATTITUDE",
        "uint32_t time_boot_ms, float roll, float pitch, float yaw, float rollspeed, float \
         pitchspeed, float yawspeed",
    ),
    (
        31,
        "ATTITUDE_QUATERNION",
        "uint32_t time_boot_ms, float q1, float q2, float q3, float q4, float rollspeed, \
         float pitchspeed, float yawspeed",
    ),
    (
        32,
        "LOCAL_POSITION_NED",
        "uint32_t time_boot_ms, float x, float y, float z, float vx, float vy, float vz",
    ),
    (
        33,
        "GLOBAL_POSITION_INT",
        "uint32_t time_boot_ms, int32_t lat, int32_t lon, int32_t alt, int32_t relative_alt, \
         int16_t vx, int16_t vy, int16_t vz, uint16_t hdg",
    ),
    (
        34,
        "RC_CHANNELS_SCALED",
        "uint32_t time_boot_ms, uint8_t port, int16_t chan1_scaled, int16_t chan2_scaled, \
         int16_t chan3_scaled, int16_t chan4_scaled, int16_t chan5_scaled, int16_t \
         chan6_scaled, int16_t chan7_scaled, int16_t chan8_scaled, uint8_t rssi",
    ),
    (
        35,
        "RC_CHANNELS_RAW",
        "uint32_t time_boot_ms, uint8_t port, uint16_t chan1_raw, uint16_t chan2_raw, \
         uint16_t chan3_raw, uint16_t chan4_raw, uint16_t chan5_raw, uint16_t chan6_raw, \
         uint16_t chan7_raw, uint16_t chan8_raw, uint8_t rssi",
    ),
    (
        36,
        "SERVO_OUTPUT_RAW",
        "uint32_t time_usec, uint8_t port, uint16_t servo1_raw, uint16_t servo2_raw, uint16_t \
         servo3_raw, uint16_t servo4_raw, uint16_t servo5_raw, uint16_t servo6_raw, uint16_t \
         servo7_raw, uint16_t servo8_raw",
    ),
    (
        37,
        "MISSION_REQUEST_PARTIAL_LIST",
        "uint8_t target_system, uint8_t target_component, int16_t start_index, int16_t \
         end_index",
    ),
    (
        38,
        "MISSION_WRITE_PARTIAL_LIST",
        "uint8_t target_system, uint8_t target_component, int16_t start_index, int16_t \
         end_index",
    ),
    (
        39,
        "MISSION_ITEM",
        "uint8_t target_system, uint8_t target_component, uint16_t seq, uint8_t frame, \
         uint16_t command, uint8_t current, uint8_t autocontinue, float param1, float param2, \
         float param3, float param4, float x, float y, float z",
    ),
    (
        40,
        "MISSION_REQUEST",
        "uint8_t target_system, uint8_t target_component, uint16_t seq",
    ),
    (
        41,
        "MISSION_SET_CURRENT",
        "uint8_t target_system, uint8_t target_component, uint16_t seq",
    ),
    (
        42,
        "MISSION_CURRENT",
        "uint16_t seq",
    ),
    (
        43,
        "MISSION_REQUEST_LIST",
        "uint8_t target_system, uint8_t target_component",
    ),
    (
        44,
        "MISSION_COUNT",
        "uint8_t target_system, uint8_t target_component, uint16_t count",
    ),
    (
        45,
        "MISSION_CLEAR_ALL",
        "uint8_t target_system, uint8_t target_component",
    ),
    (
        46,
        "MISSION_ITEM_REACHED",
        "uint16_t seq",
    ),
    (
        47,
        "MISSION_ACK",
        "uint8_t target_system, uint8_t target_component, uint8_t type",
    ),
    (
        48,
        "SET_GPS_GLOBAL_ORIGIN",
        "uint8_t target_system, int32_t latitude, int32_t longitude, int32_t altitude",
    ),
    (
        49,
        "GPS_GLOBAL_ORIGIN",
        "int32_t latitude, int32_t longitude, int32_t altitude",
    ),
    (
        50,
        "PARAM_MAP_RC",
        "uint8_t target_system, uint8_t target_component, char[16] param_id, int16_t \
         param_index, uint8_t parameter_rc_channel_index, float param_value0, float scale, \
         float param_value_min, float param_value_max",
    ),
    (
        51,
        "MISSION_REQUEST_INT",
        "uint8_t target_system, uint8_t target_component, uint16_t seq",
    ),
    (
        54,
        "SAFETY_SET_ALLOWED_AREA",
        "uint8_t target_system, uint8_t target_component, uint8_t frame, float p1x, float \
         p1y, float p1z, float p2x, float p2y, float p2z",
    ),
    (
        55,
        "SAFETY_ALLOWED_AREA",
        "uint8_t frame, float p1x, float p1y, float p1z, float p2x, float p2y, float p2z",
    ),
    (
        61,
        "ATTITUDE_QUATERNION_COV",
        "uint64_t time_usec, float[4] q, float rollspeed, float pitchspeed, float yawspeed, \
         float[9] covariance",
    ),
    (
        62,
        "NAV_CONTROLLER_OUTPUT",
        "float nav_roll, float nav_pitch, int16_t nav_bearing, int16_t target_bearing, \
         uint16_t wp_dist, float alt_error, float aspd_error, float xtrack_error",
    ),
    (
        63,
        "GLOBAL_POSITION_INT_COV",
        "uint64_t time_usec, uint8_t estimator_type, int32_t lat, int32_t lon, int32_t alt, \
         int32_t relative_alt, float vx, float vy, float vz, float[36] covariance",
    ),
    (
        64,
        "LOCAL_POSITION_NED_COV",
        "uint64_t time_usec, uint8_t estimator_type, float x, float y, float z, float vx, \
         float vy, float vz, float ax, float ay, float az, float[45] covariance",
    ),
    (
        65,
        "RC_CHANNELS",
        "uint32_t time_boot_ms, uint8_t chancount, uint16_t chan1_raw, uint16_t chan2_raw, \
         uint16_t chan3_raw, uint16_t chan4_raw, uint16_t chan5_raw, uint16_t chan6_raw, \
         uint16_t chan7_raw, uint16_t chan8_raw, uint16_t chan9_raw, uint16_t chan10_raw, \
         uint16_t chan11_raw, uint16_t chan12_raw, uint16_t chan13_raw, uint16_t chan14_raw, \
         uint16_t chan15_raw, uint16_t chan16_raw, uint16_t chan17_raw, uint16_t chan18_raw, \
         uint8_t rssi",
    ),
    (
        66,
        "REQUEST_DATA_STREAM",
        "uint8_t target_system, uint8_t target_component, uint8_t req_stream_id, uint16_t \
         req_message_rate, uint8_t start_stop",
    ),
    (
        67,
        "DATA_STREAM",
        "uint8_t stream_id, uint16_t message_rate, uint8_t on_off",
    ),
    (
        69,
        "MANUAL_CONTROL",
        "uint8_t target, int16_t x, int16_t y, int16_t z, int16_t r, uint16_t buttons",
    ),
    (
        70,
        "RC_CHANNELS_OVERRIDE",
        "uint8_t target_system, uint8_t target_component, uint16_t chan1_raw, uint16_t \
         chan2_raw, uint16_t chan3_raw, uint16_t chan4_raw, uint16_t chan5_raw, uint16_t \
         chan6_raw, uint16_t chan7_raw, uint16_t chan8_raw",
    ),
    (
        73,
        "MISSION_ITEM_INT",
        "uint8_t target_system, uint8_t target_component, uint16_t seq, uint8_t frame, \
         uint16_t command, uint8_t current, uint8_t autocontinue, float param1, float param2, \
         float param3, float param4, int32_t x, int32_t y, float z",
    ),
    (
        74,
        "VFR_HUD",
        "float airspeed, float groundspeed, int16_t heading, uint16_t throttle, float alt, \
         float climb",
    ),
    (
        75,
        "COMMAND_INT",
        "uint8_t target_system, uint8_t target_component, uint8_t frame, uint16_t command, \
         uint8_t current, uint8_t autocontinue, float param1, float param2, float param3, \
         float param4, int32_t x, int32_t y, float z",
    ),
    (
        76,
        "COMMAND_LONG",
        "uint8_t target_system, uint8_t target_component, uint16_t command, uint8_t \
         confirmation, float param1, float param2, float param3, float param4, float param5, \
         float param6, float param7",
    ),
    (
        77,
        "COMMAND_ACK",
        "uint16_t command, uint8_t result; uint8_t progress, int32_t result_param2, uint8_t \
         target_system, uint8_t target_component",
    ),
    (
        80,
        "COMMAND_CANCEL",
        "uint8_t target_system, uint8_t target_component, uint16_t command",
    ),
    (
        81,
        "MANUAL_SETPOINT",
        "uint32_t time_boot_ms, float roll, float pitch, float yaw, float thrust, uint8_t \
         mode_switch, uint8_t manual_override_switch",
    ),
    (
        82,
        "SET_ATTITUDE_TARGET",
        "uint32_t time_boot_ms, uint8_t target_system, uint8_t target_component, uint8_t \
         type_mask, float[4] q, float body_roll_rate, float body_pitch_rate, float \
         body_yaw_rate, float thrust",
    ),
    (
        83,
        "ATTITUDE_TARGET",
        "uint32_t time_boot_ms, uint8_t type_mask, float[4] q, float body_roll_rate, float \
         body_pitch_rate, float body_yaw_rate, float thrust",
    ),
    (
        84,
        "SET_POSITION_TARGET_LOCAL_NED",
        "uint32_t time_boot_ms, uint8_t target_system, uint8_t target_component, uint8_t \
         coordinate_frame, uint16_t type_mask, float x, float y, float z, float vx, float vy, \
         float vz, float afx, float afy, float afz, float yaw, float yaw_rate",
    ),
    (
        85,
        "POSITION_TARGET_LOCAL_NED",
        "uint32_t time_boot_ms, uint8_t coordinate_frame, uint16_t type_mask, float x, float \
         y, float z, float vx, float vy, float vz, float afx, float afy, float afz, float \
         yaw, float yaw_rate",
    ),
    (
        86,
        "SET_POSITION_TARGET_GLOBAL_INT",
        "uint32_t time_boot_ms, uint8_t target_system, uint8_t target_component, uint8_t \
         coordinate_frame, uint16_t type_mask, int32_t lat_int, int32_t lon_int, float alt, \
         float vx, float vy, float vz, float afx, float afy, float afz, float yaw, float \
         yaw_rate",
    ),
    (
        87,
        "POSITION_TARGET_GLOBAL_INT",
        "uint32_t time_boot_ms, uint8_t coordinate_frame, uint16_t type_mask, int32_t \
         lat_int, int32_t lon_int, float alt, float vx, float vy, float vz, float afx, float \
         afy, float afz, float yaw, float yaw_rate",
    ),
    (
        89,
        "LOCAL_POSITION_NED_SYSTEM_GLOBAL_OFFSET",
        "uint32_t time_boot_ms, float x, float y, float z, float roll, float pitch, float yaw",
    ),
    (
        90,
        "HIL_STATE",
        "uint64_t time_usec, float roll, float pitch, float yaw, float rollspeed, float \
         pitchspeed, float yawspeed, int32_t lat, int32_t lon, int32_t alt, int16_t vx, \
         int16_t vy, int16_t vz, int16_t xacc, int16_t yacc, int16_t zacc",
    ),
    (
        91,
        "HIL_CONTROLS",
        "uint64_t time_usec, float roll_ailerons, float pitch_elevator, float yaw_rudder, \
         float throttle, float aux1, float aux2, float aux3, float aux4, uint8_t mode, \
         uint8_t nav_mode",
    ),
    (
        92,
        "HIL_RC_INPUTS_RAW",
        "uint64_t time_usec, uint16_t chan1_raw, uint16_t chan2_raw, uint16_t chan3_raw, \
         uint16_t chan4_raw, uint16_t chan5_raw, uint16_t chan6_raw, uint16_t chan7_raw, \
         uint16_t chan8_raw, uint16_t chan9_raw, uint16_t chan10_raw, uint16_t chan11_raw, \
         uint16_t chan12_raw, uint8_t rssi",
    ),
    (
        93,
        "HIL_ACTUATOR_CONTROLS",
        "uint64_t time_usec, float[16] controls, uint8_t mode, uint64_t flags",
    ),
    (
        100,
        "OPTICAL_FLOW",
        "uint64_t time_usec, uint8_t sensor_id, int16_t flow_x, int16_t flow_y, float \
         flow_comp_m_x, float flow_comp_m_y, uint8_t quality, float ground_distance",
    ),
    (
        101,
        "GLOBAL_VISION_POSITION_ESTIMATE",
        "uint64_t usec, float x, float y, float z, float roll, float pitch, float yaw",
    ),
    (
        102,
        "VISION_POSITION_ESTIMATE",
        "uint64_t usec, float x, float y, float z, float roll, float pitch, float yaw",
    ),
    (
        103,
        "VISION_SPEED_ESTIMATE",
        "uint64_t usec, float x, float y, float z",
    ),
    (
        104,
        "VICON_POSITION_ESTIMATE",
        "uint64_t usec, float x, float y, float z, float roll, float pitch, float yaw",
    ),
    (
        105,
        "HIGHRES_IMU",
        "uint64_t time_usec, float xacc, float yacc, float zacc, float xgyro, float ygyro, \
         float zgyro, float xmag, float ymag, float zmag, float abs_pressure, float \
         diff_pressure, float pressure_alt, float temperature, uint16_t fields_updated",
    ),
    (
        106,
        "OPTICAL_FLOW_RAD",
        "uint64_t time_usec, uint8_t sensor_id, uint32_t integration_time_us, float \
         integrated_x, float integrated_y, float integrated_xgyro, float integrated_ygyro, \
         float integrated_zgyro, int16_t temperature, uint8_t quality, uint32_t \
         time_delta_distance_us, float distance",
    ),
    (
        107,
        "HIL_SENSOR",
        "uint64_t time_usec, float xacc, float yacc, float zacc, float xgyro, float ygyro, \
         float zgyro, float xmag, float ymag, float zmag, float abs_pressure, float \
         diff_pressure, float pressure_alt, float temperature, uint32_t fields_updated",
    ),
    (
        108,
        "SIM_STATE",
        "float q1, float q2, float q3, float q4, float roll, float pitch, float yaw, float \
         xacc, float yacc, float zacc, float xgyro, float ygyro, float zgyro, float lat, \
         float lon, float alt, float std_dev_horz, float std_dev_vert, float vn, float ve, \
         float vd",
    ),
    (
        109,
        "RADIO_STATUS",
        "uint8_t rssi, uint8_t remrssi, uint8_t txbuf, uint8_t noise, uint8_t remnoise, \
         uint16_t rxerrors, uint16_t fixed",
    ),
    (
        110,
        "FILE_TRANSFER_PROTOCOL",
        "uint8_t target_network, uint8_t target_system, uint8_t target_component, \
         uint8_t[251] payload",
    ),
    (
        111,
        "TIMESYNC",
        "int64_t tc1, int64_t ts1",
    ),
    (
        112,
        "CAMERA_TRIGGER",
        "uint64_t time_usec, uint32_t seq",
    ),
    (
        113,
        "HIL_GPS",
        "uint64_t time_usec, uint8_t fix_type, int32_t lat, int32_t lon, int32_t alt, \
         uint16_t eph, uint16_t epv, uint16_t vel, int16_t vn, int16_t ve, int16_t vd, \
         uint16_t cog, uint8_t satellites_visible",
    ),
    (
        114,
        "HIL_OPTICAL_FLOW",
        "uint64_t time_usec, uint8_t sensor_id, uint32_t integration_time_us, float \
         integrated_x, float integrated_y, float integrated_xgyro, float integrated_ygyro, \
         float integrated_zgyro, int16_t temperature, uint8_t quality, uint32_t \
         time_delta_distance_us, float distance",
    ),
    (
        115,
        "HIL_STATE_QUATERNION",
        "uint64_t time_usec, float[4] attitude_quaternion, float rollspeed, float pitchspeed, \
         float yawspeed, int32_t lat, int32_t lon, int32_t alt, int16_t vx, int16_t vy, \
         int16_t vz, uint16_t ind_airspeed, uint16_t true_airspeed, int16_t xacc, int16_t \
         yacc, int16_t zacc",
    ),
    (
        116,
        "SCALED_IMU2",
        "uint32_t time_boot_ms, int16_t xacc, int16_t yacc, int16_t zacc, int16_t xgyro, \
         int16_t ygyro, int16_t zgyro, int16_t xmag, int16_t ymag, int16_t zmag",
    ),
    (
        117,
        "LOG_REQUEST_LIST",
        "uint8_t target_system, uint8_t target_component, uint16_t start, uint16_t end",
    ),
    (
        118,
        "LOG_ENTRY",
        "uint16_t id, uint16_t num_logs, uint16_t last_log_num, uint32_t time_utc, uint32_t \
         size",
    ),
    (
        119,
        "LOG_REQUEST_DATA",
        "uint8_t target_system, uint8_t target_component, uint16_t id, uint32_t ofs, uint32_t \
         count",
    ),
    (
        120,
        "LOG_DATA",
        "uint16_t id, uint32_t ofs, uint8_t count, uint8_t[90] data",
    ),
    (
        121,
        "LOG_ERASE",
        "uint8_t target_system, uint8_t target_component",
    ),
    (
        122,
        "LOG_REQUEST_END",
        "uint8_t target_system, uint8_t target_component",
    ),
    (
        123,
        "GPS_INJECT_DATA",
        "uint8_t target_system, uint8_t target_component, uint8_t len, uint8_t[110] data",
    ),
    (
        124,
        "GPS2_RAW",
        "uint64_t time_usec, uint8_t fix_type, int32_t lat, int32_t lon, int32_t alt, \
         uint16_t eph, uint16_t epv, uint16_t vel, uint16_t cog, uint8_t satellites_visible, \
         uint8_t dgps_numch, uint32_t dgps_age",
    ),
    (
        125,
        "POWER_STATUS",
        "uint16_t Vcc, uint16_t Vservo, uint16_t flags",
    ),
    (
        126,
        "SERIAL_CONTROL",
        "uint8_t device, uint8_t flags, uint16_t timeout, uint32_t baudrate, uint8_t count, \
         uint8_t[70] data; uint8_t target_system, uint8_t target_component",
    ),
    (
        127,
        "GPS_RTK",
        "uint32_t time_last_baseline_ms, uint8_t rtk_receiver_id, uint16_t wn, uint32_t tow, \
         uint8_t rtk_health, uint8_t rtk_rate, uint8_t nsats, uint8_t baseline_coords_type, \
         int32_t baseline_a_mm, int32_t baseline_b_mm, int32_t baseline_c_mm, uint32_t \
         accuracy, int32_t iar_num_hypotheses",
    ),
    (
        128,
        "GPS2_RTK",
        "uint32_t time_last_baseline_ms, uint8_t rtk_receiver_id, uint16_t wn, uint32_t tow, \
         uint8_t rtk_health, uint8_t rtk_rate, uint8_t nsats, uint8_t baseline_coords_type, \
         int32_t baseline_a_mm, int32_t baseline_b_mm, int32_t baseline_c_mm, uint32_t \
         accuracy, int32_t iar_num_hypotheses",
    ),
    (
        129,
        "SCALED_IMU3",
        "uint32_t time_boot_ms, int16_t xacc, int16_t yacc, int16_t zacc, int16_t xgyro, \
         int16_t ygyro, int16_t zgyro, int16_t xmag, int16_t ymag, int16_t zmag",
    ),
    (
        130,
        "DATA_TRANSMISSION_HANDSHAKE",
        "uint8_t type, uint32_t size, uint16_t width, uint16_t height, uint16_t packets, \
         uint8_t payload, uint8_t jpg_quality",
    ),
    (
        131,
        "ENCAPSULATED_DATA",
        "uint16_t seqnr, uint8_t[253] data",
    ),
    (
        132,
        "DISTANCE_SENSOR",
        "uint32_t time_boot_ms, uint16_t min_distance, uint16_t max_distance, uint16_t \
         current_distance, uint8_t type, uint8_t id, uint8_t orientation, uint8_t covariance",
    ),
    (
        133,
        "TERRAIN_REQUEST",
        "int32_t lat, int32_t lon, uint16_t grid_spacing, uint64_t mask",
    ),
    (
        134,
        "TERRAIN_DATA",
        "int32_t lat, int32_t lon, uint16_t grid_spacing, uint8_t gridbit, int16_t[16] data",
    ),
    (
        135,
        "TERRAIN_CHECK",
        "int32_t lat, int32_t lon",
    ),
    (
        136,
        "TERRAIN_REPORT",
        "int32_t lat, int32_t lon, uint16_t spacing, float terrain_height, float \
         current_height, uint16_t pending, uint16_t loaded",
    ),
    (
        137,
        "SCALED_PRESSURE2",
        "uint32_t time_boot_ms, float press_abs, float press_diff, int16_t temperature",
    ),
    (
        138,
        "ATT_POS_MOCAP",
        "uint64_t time_usec, float[4] q, float x, float y, float z",
    ),
    (
        139,
        "SET_ACTUATOR_CONTROL_TARGET",
        "uint64_t time_usec, uint8_t group_mlx, uint8_t target_system, uint8_t \
         target_component, float[8] controls",
    ),
    (
        140,
        "ACTUATOR_CONTROL_TARGET",
        "uint64_t time_usec, uint8_t group_mlx, float[8] controls",
    ),
    (
        141,
        "ALTITUDE",
        "uint64_t time_usec, float altitude_monotonic, float altitude_amsl, float \
         altitude_local, float altitude_relative, float altitude_terrain, float \
         bottom_clearance",
    ),
    (
        142,
        "RESOURCE_REQUEST",
        "uint8_t request_id, uint8_t uri_type, uint8_t[120] uri, uint8_t transfer_type, \
         uint8_t[120] storage",
    ),
    (
        143,
        "SCALED_PRESSURE3",
        "uint32_t time_boot_ms, float press_abs, float press_diff, int16_t temperature",
    ),
    (
        144,
        "FOLLOW_TARGET",
        "uint64_t timestamp, uint8_t est_capabilities, int32_t lat, int32_t lon, float alt, \
         float[3] vel, float[3] acc, float[4] attitude_q, float[3] rates, float[3] \
         position_cov, uint64_t custom_state",
    ),
    (
        146,
        "CONTROL_SYSTEM_STATE",
        "uint64_t time_usec, float x_acc, float y_acc, float z_acc, float x_vel, float y_vel, \
         float z_vel, float x_pos, float y_pos, float z_pos, float airspeed, float[3] \
         vel_variance, float[3] pos_variance, float[4] q, float roll_rate, float pitch_rate, \
         float yaw_rate",
    ),
    (
        147,
        "BATTERY_STATUS",
        "uint8_t id, uint8_t battery_function, uint8_t type, int16_t temperature, \
         uint16_t[10] voltages, int16_t current_battery, int32_t current_consumed, int32_t \
         energy_consumed, int8_t battery_remaining",
    ),
    (
        148,
        "AUTOPILOT_VERSION",
        "uint64_t capabilities, uint32_t flight_sw_version, uint32_t middleware_sw_version, \
         uint32_t os_sw_version, uint32_t board_version, uint8_t[8] flight_custom_version, \
         uint8_t[8] middleware_custom_version, uint8_t[8] os_custom_version, uint16_t \
         vendor_id, uint16_t product_id, uint64_t uid",
    ),
    (
        149,
        "LANDING_TARGET",
        "uint64_t time_usec, uint8_t target_num, uint8_t frame, float angle_x, float angle_y, \
         float distance, float size_x, float size_y",
    ),
    (
        150,
        "SENSOR_OFFSETS",
        "int16_t mag_ofs_x, int16_t mag_ofs_y, int16_t mag_ofs_z, float mag_declination, \
         int32_t raw_press, int32_t raw_temp, float gyro_cal_x, float gyro_cal_y, float \
         gyro_cal_z, float accel_cal_x, float accel_cal_y, float accel_cal_z",
    ),
    (
        151,
        "SET_MAG_OFFSETS",
        "uint8_t target_system, uint8_t target_component, int16_t mag_ofs_x, int16_t \
         mag_ofs_y, int16_t mag_ofs_z",
    ),
    (
        152,
        "MEMINFO",
        "uint16_t brkval, uint16_t freemem",
    ),
    (
        153,
        "AP_ADC",
        "uint16_t adc1, uint16_t adc2, uint16_t adc3, uint16_t adc4, uint16_t adc5, uint16_t \
         adc6",
    ),
    (
        154,
        "DIGICAM_CONFIGURE",
        "uint8_t target_system, uint8_t target_component, uint8_t mode, uint16_t \
         shutter_speed, uint8_t aperture, uint8_t iso, uint8_t exposure_type, uint8_t \
         command_id, uint8_t engine_cut_off, uint8_t extra_param, float extra_value",
    ),
    (
        155,
        "DIGICAM_CONTROL",
        "uint8_t target_system, uint8_t target_component, uint8_t session, uint8_t zoom_pos, \
         int8_t zoom_step, uint8_t focus_lock, uint8_t shot, uint8_t command_id, uint8_t \
         extra_param, float extra_value",
    ),
    (
        156,
        "MOUNT_CONFIGURE",
        "uint8_t target_system, uint8_t target_component, uint8_t mount_mode, uint8_t \
         stab_roll, uint8_t stab_pitch, uint8_t stab_yaw",
    ),
    (
        157,
        "MOUNT_CONTROL",
        "uint8_t target_system, uint8_t target_component, int32_t input_a, int32_t input_b, \
         int32_t input_c, uint8_t save_position",
    ),
    (
        158,
        "MOUNT_STATUS",
        "uint8_t target_system, uint8_t target_component, int32_t pointing_a, int32_t \
         pointing_b, int32_t pointing_c",
    ),
    (
        160,
        "FENCE_POINT",
        "uint8_t target_system, uint8_t target_component, uint8_t idx, uint8_t count, float \
         lat, float lng",
    ),
    (
        161,
        "FENCE_FETCH_POINT",
        "uint8_t target_system, uint8_t target_component, uint8_t idx",
    ),
    (
        162,
        "FENCE_STATUS",
        "uint8_t breach_status, uint16_t breach_count, uint8_t breach_type, uint32_t \
         breach_time",
    ),
    (
        163,
        "AHRS",
        "float omegaIx, float omegaIy, float omegaIz, float accel_weight, float renorm_val, \
         float error_rp, float error_yaw",
    ),
    (
        164,
        "SIMSTATE",
        "float roll, float pitch, float yaw, float xacc, float yacc, float zacc, float xgyro, \
         float ygyro, float zgyro, int32_t lat, int32_t lng",
    ),
    (
        165,
        "HWSTATUS",
        "uint16_t Vcc, uint8_t I2Cerr",
    ),
    (
        166,
        "RADIO",
        "uint8_t rssi, uint8_t remrssi, uint8_t txbuf, uint8_t noise, uint8_t remnoise, \
         uint16_t rxerrors, uint16_t fixed",
    ),
    (
        167,
        "LIMITS_STATUS",
        "uint8_t limits_state, uint32_t last_trigger, uint32_t last_action, uint32_t \
         last_recovery, uint32_t last_clear, uint16_t breach_count, uint8_t mods_enabled, \
         uint8_t mods_required, uint8_t mods_triggered",
    ),
    (
        168,
        "WIND",
        "float direction, float speed, float speed_z",
    ),
    (
        169,
        "DATA16",
        "uint8_t type, uint8_t len, uint8_t[16] data",
    ),
    (
        170,
        "DATA32",
        "uint8_t type, uint8_t len, uint8_t[32] data",
    ),
    (
        171,
        "DATA64",
        "uint8_t type, uint8_t len, uint8_t[64] data",
    ),
    (
        172,
        "DATA96",
        "uint8_t type, uint8_t len, uint8_t[96] data",
    ),
    (
        173,
        "RANGEFINDER",
        "float distance, float voltage",
    ),
    (
        174,
        "AIRSPEED_AUTOCAL",
        "float vx, float vy, float vz, float diff_pressure, float EAS2TAS, float ratio, float \
         state_x, float state_y, float state_z, float Pax, float Pby, float Pcz",
    ),
    (
        175,
        "RALLY_POINT",
        "uint8_t target_system, uint8_t target_component, uint8_t idx, uint8_t count, int32_t \
         lat, int32_t lng, int16_t alt, int16_t break_alt, uint16_t land_dir, uint8_t flags",
    ),
    (
        176,
        "RALLY_FETCH_POINT",
        "uint8_t target_system, uint8_t target_component, uint8_t idx",
    ),
    (
        177,
        "COMPASSMOT_STATUS",
        "uint16_t throttle, float current, uint16_t interference, float CompensationX, float \
         CompensationY, float CompensationZ",
    ),
    (
        178,
        "AHRS2",
        "float roll, float pitch, float yaw, float altitude, int32_t lat, int32_t lng",
    ),
    (
        179,
        "CAMERA_STATUS",
        "uint64_t time_usec, uint8_t target_system, uint8_t cam_idx, uint16_t img_idx, \
         uint8_t event_id, float p1, float p2, float p3, float p4",
    ),
    (
        180,
        "CAMERA_FEEDBACK",
        "uint64_t time_usec, uint8_t target_system, uint8_t cam_idx, uint16_t img_idx, \
         int32_t lat, int32_t lng, float alt_msl, float alt_rel, float roll, float pitch, \
         float yaw, float foc_len, uint8_t flags",
    ),
    (
        181,
        "BATTERY2",
        "uint16_t voltage, int16_t current_battery",
    ),
    (
        182,
        "AHRS3",
        "float roll, float pitch, float yaw, float altitude, int32_t lat, int32_t lng, float \
         v1, float v2, float v3, float v4",
    ),
    (
        183,
        "AUTOPILOT_VERSION_REQUEST",
        "uint8_t target_system, uint8_t target_component",
    ),
    (
        184,
        "REMOTE_LOG_DATA_BLOCK",
        "uint8_t target_system, uint8_t target_component, uint32_t seqno, uint8_t[200] data",
    ),
    (
        185,
        "REMOTE_LOG_BLOCK_STATUS",
        "uint8_t target_system, uint8_t target_component, uint32_t seqno, uint8_t status",
    ),
    (
        186,
        "LED_CONTROL",
        "uint8_t target_system, uint8_t target_component, uint8_t instance, uint8_t pattern, \
         uint8_t custom_len, uint8_t[24] custom_bytes",
    ),
    (
        191,
        "MAG_CAL_PROGRESS",
        "uint8_t compass_id, uint8_t cal_mask, uint8_t cal_status, uint8_t attempt, uint8_t \
         completion_pct, uint8_t[10] completion_mask, float direction_x, float direction_y, \
         float direction_z",
    ),
    (
        192,
        "MAG_CAL_REPORT",
        "uint8_t compass_id, uint8_t cal_mask, uint8_t cal_status, uint8_t autosaved, float \
         fitness, float ofs_x, float ofs_y, float ofs_z, float diag_x, float diag_y, float \
         diag_z, float offdiag_x, float offdiag_y, float offdiag_z",
    ),
    (
        193,
        "EKF_STATUS_REPORT",
        "uint16_t flags, float velocity_variance, float pos_horiz_variance, float \
         pos_vert_variance, float compass_variance, float terrain_alt_variance",
    ),
    (
        194,
        "PID_TUNING",
        "uint8_t axis, float desired, float achieved, float FF, float P, float I, float D",
    ),
    (
        195,
        "DEEPSTALL",
        "int32_t landing_lat, int32_t landing_lon, int32_t path_lat, int32_t path_lon, \
         int32_t arc_entry_lat, int32_t arc_entry_lon, float altitude, float \
         expected_travel_distance, float cross_track_error, uint8_t stage",
    ),
    (
        200,
        "GIMBAL_REPORT",
        "uint8_t target_system, uint8_t target_component, float delta_time, float \
         delta_angle_x, float delta_angle_y, float delta_angle_z, float delta_velocity_x, \
         float delta_velocity_y, float delta_velocity_z, float joint_roll, float joint_el, \
         float joint_az",
    ),
    (
        201,
        "GIMBAL_CONTROL",
        "uint8_t target_system, uint8_t target_component, float demanded_rate_x, float \
         demanded_rate_y, float demanded_rate_z",
    ),
    (
        214,
        "GIMBAL_TORQUE_CMD_REPORT",
        "uint8_t target_system, uint8_t target_component, int16_t rl_torque_cmd, int16_t \
         el_torque_cmd, int16_t az_torque_cmd",
    ),
    (
        215,
        "GOPRO_HEARTBEAT",
        "uint8_t status, uint8_t capture_mode, uint8_t flags",
    ),
    (
        216,
        "GOPRO_GET_REQUEST",
        "uint8_t target_system, uint8_t target_component, uint8_t cmd_id",
    ),
    (
        217,
        "GOPRO_GET_RESPONSE",
        "uint8_t cmd_id, uint8_t status, uint8_t[4] value",
    ),
    (
        218,
        "GOPRO_SET_REQUEST",
        "uint8_t target_system, uint8_t target_component, uint8_t cmd_id, uint8_t[4] value",
    ),
    (
        219,
        "GOPRO_SET_RESPONSE",
        "uint8_t cmd_id, uint8_t status",
    ),
    (
        225,
        "EFI_STATUS",
        "uint8_t health, float ecu_index, float rpm, float fuel_consumed, float fuel_flow, \
         float engine_load, float throttle_position, float spark_dwell_time, float \
         barometric_pressure, float intake_manifold_pressure, float \
         intake_manifold_temperature, float cylinder_head_temperature, float ignition_timing, \
         float injection_time, float exhaust_gas_temperature, float throttle_out, float \
         pt_compensation",
    ),
    (
        226,
        "RPM",
        "float rpm1, float rpm2",
    ),
    (
        230,
        "ESTIMATOR_STATUS",
        "uint64_t time_usec, uint16_t flags, float vel_ratio, float pos_horiz_ratio, float \
         pos_vert_ratio, float mag_ratio, float hagl_ratio, float tas_ratio, float \
         pos_horiz_accuracy, float pos_vert_accuracy",
    ),
    (
        231,
        "WIND_COV",
        "uint64_t time_usec, float wind_x, float wind_y, float wind_z, float var_horiz, float \
         var_vert, float wind_alt, float horiz_accuracy, float vert_accuracy",
    ),
    (
        232,
        "GPS_INPUT",
        "uint64_t time_usec, uint8_t gps_id, uint16_t ignore_flags, uint32_t time_week_ms, \
         uint16_t time_week, uint8_t fix_type, int32_t lat, int32_t lon, float alt, float \
         hdop, float vdop, float vn, float ve, float vd, float speed_accuracy, float \
         horiz_accuracy, float vert_accuracy, uint8_t satellites_visible",
    ),
    (
        233,
        "GPS_RTCM_DATA",
        "uint8_t flags, uint8_t len, uint8_t[180] data",
    ),
    (
        234,
        "HIGH_LATENCY",
        "uint8_t base_mode, uint32_t custom_mode, uint8_t landed_state, int16_t roll, int16_t \
         pitch, uint16_t heading, int8_t throttle, int16_t heading_sp, int32_t latitude, \
         int32_t longitude, int16_t altitude_amsl, int16_t altitude_sp, uint8_t airspeed, \
         uint8_t airspeed_sp, uint8_t groundspeed, int8_t climb_rate, uint8_t gps_nsat, \
         uint8_t gps_fix_type, uint8_t battery_remaining, int8_t temperature, int8_t \
         temperature_air, uint8_t failsafe, uint8_t wp_num, uint16_t wp_distance",
    ),
    (
        235,
        "HIGH_LATENCY2",
        "uint32_t timestamp, uint8_t type, uint8_t autopilot, uint16_t custom_mode, int32_t \
         latitude, int32_t longitude, int16_t altitude, int16_t target_altitude, uint8_t \
         heading, uint8_t target_heading, uint16_t target_distance, uint8_t throttle, uint8_t \
         airspeed, uint8_t airspeed_sp, uint8_t groundspeed, uint8_t windspeed, uint8_t \
         wind_heading, uint8_t eph, uint8_t epv, int8_t temperature_air, int8_t climb_rate, \
         int8_t battery, uint16_t wp_num, uint16_t failure_flags, int8_t custom0, int8_t \
         custom1, int8_t custom2",
    ),
    (
        241,
        "VIBRATION",
        "uint64_t time_usec, float vibration_x, float vibration_y, float vibration_z, \
         uint32_t clipping_0, uint32_t clipping_1, uint32_t clipping_2",
    ),
    (
        242,
        "HOME_POSITION",
        "int32_t latitude, int32_t longitude, int32_t altitude, float x, float y, float z, \
         float[4] q, float approach_x, float approach_y, float approach_z",
    ),
    (
        243,
        "SET_HOME_POSITION",
        "uint8_t target_system, int32_t latitude, int32_t longitude, int32_t altitude, float \
         x, float y, float z, float[4] q, float approach_x, float approach_y, float \
         approach_z",
    ),
    (
        244,
        "MESSAGE_INTERVAL",
        "uint16_t message_id, int32_t interval_us",
    ),
    (
        245,
        "EXTENDED_SYS_STATE",
        "uint8_t vtol_state, uint8_t landed_state",
    ),
    (
        246,
        "ADSB_VEHICLE",
        "uint32_t ICAO_address, int32_t lat, int32_t lon, uint8_t altitude_type, int32_t \
         altitude, uint16_t heading, uint16_t hor_velocity, int16_t ver_velocity, char[9] \
         callsign, uint8_t emitter_type, uint8_t tslc, uint16_t flags, uint16_t squawk",
    ),
    (
        247,
        "COLLISION",
        "uint8_t src, uint32_t id, uint8_t action, uint8_t threat_level, float \
         time_to_minimum_delta, float altitude_minimum_delta, float horizontal_minimum_delta",
    ),
    (
        248,
        "V2_EXTENSION",
        "uint8_t target_network, uint8_t target_system, uint8_t target_component, uint16_t \
         message_type, uint8_t[249] payload",
    ),
    (
        249,
        "MEMORY_VECT",
        "uint16_t address, uint8_t ver, uint8_t type, int8_t[32] value",
    ),
    (
        250,
        "DEBUG_VECT",
        "char[10] name, uint64_t time_usec, float x, float y, float z",
    ),
    (
        251,
        "NAMED_VALUE_FLOAT",
        "uint32_t time_boot_ms, char[10] name, float value",
    ),
    (
        252,
        "NAMED_VALUE_INT",
        "uint32_t time_boot_ms, char[10] name, int32_t value",
    ),
    (
        253,
        "STATUSTEXT",
        "uint8_t severity, char[50] text",
    ),
    (
        254,
        "DEBUG",
        "uint32_t time_boot_ms, uint8_t ind, float value",
    ),
    (
        256,
        "SETUP_SIGNING",
        "uint8_t target_system, uint8_t target_component, uint8_t[32] secret_key, uint64_t \
         initial_timestamp",
    ),
    (
        257,
        "BUTTON_CHANGE",
        "uint32_t time_boot_ms, uint32_t last_change_ms, uint8_t state",
    ),
    (
        258,
        "PLAY_TUNE",
        "uint8_t target_system, uint8_t target_component, char[30] tune",
    ),
    (
        259,
        "CAMERA_INFORMATION",
        "uint32_t time_boot_ms, uint8_t[32] vendor_name, uint8_t[32] model_name, uint32_t \
         firmware_version, float focal_length, float sensor_size_h, float sensor_size_v, \
         uint16_t resolution_h, uint16_t resolution_v, uint8_t lens_id, uint32_t flags, \
         uint16_t cam_definition_version, char[140] cam_definition_uri",
    ),
    (
        260,
        "CAMERA_SETTINGS",
        "uint32_t time_boot_ms, uint8_t mode_id",
    ),
    (
        261,
        "STORAGE_INFORMATION",
        "uint32_t time_boot_ms, uint8_t storage_id, uint8_t storage_count, uint8_t status, \
         float total_capacity, float used_capacity, float available_capacity, float \
         read_speed, float write_speed",
    ),
    (
        262,
        "CAMERA_CAPTURE_STATUS",
        "uint32_t time_boot_ms, uint8_t image_status, uint8_t video_status, float \
         image_interval, uint32_t recording_time_ms, float available_capacity",
    ),
    (
        263,
        "CAMERA_IMAGE_CAPTURED",
        "uint32_t time_boot_ms, uint64_t time_utc, uint8_t camera_id, int32_t lat, int32_t \
         lon, int32_t alt, int32_t relative_alt, float[4] q, int32_t image_index, int8_t \
         capture_result, char[205] file_url",
    ),
    (
        264,
        "FLIGHT_INFORMATION",
        "uint32_t time_boot_ms, uint64_t arming_time_utc, uint64_t takeoff_time_utc, uint64_t \
         flight_uuid",
    ),
    (
        265,
        "MOUNT_ORIENTATION",
        "uint32_t time_boot_ms, float roll, float pitch, float yaw",
    ),
    (
        266,
        "LOGGING_DATA",
        "uint8_t target_system, uint8_t target_component, uint16_t sequence, uint8_t length, \
         uint8_t first_message_offset, uint8_t[249] data",
    ),
    (
        267,
        "LOGGING_DATA_ACKED",
        "uint8_t target_system, uint8_t target_component, uint16_t sequence, uint8_t length, \
         uint8_t first_message_offset, uint8_t[249] data",
    ),
    (
        268,
        "LOGGING_ACK",
        "uint8_t target_system, uint8_t target_component, uint16_t sequence",
    ),
    (
        269,
        "VIDEO_STREAM_INFORMATION",
        "uint8_t stream_id, uint8_t count, uint8_t type, uint16_t flags, float framerate, \
         uint16_t resolution_h, uint16_t resolution_v, uint32_t bitrate, uint16_t rotation, \
         uint16_t hfov, char[32] name, char[160] uri",
    ),
    (
        270,
        "VIDEO_STREAM_STATUS",
        "uint8_t stream_id, uint16_t flags, float framerate, uint16_t resolution_h, uint16_t \
         resolution_v, uint32_t bitrate, uint16_t rotation, uint16_t hfov",
    ),
    (
        271,
        "CAMERA_FOV_STATUS",
        "uint32_t time_boot_ms, int32_t lat_camera, int32_t lon_camera, int32_t alt_camera, \
         int32_t lat_image, int32_t lon_image, int32_t alt_image, float[4] q, float hfov, \
         float vfov",
    ),
    (
        275,
        "CAMERA_TRACKING_IMAGE_STATUS",
        "uint8_t tracking_status, uint8_t tracking_mode, uint8_t target_data, float point_x, \
         float point_y, float radius, float rec_top_x, float rec_top_y, float rec_bottom_x, \
         float rec_bottom_y",
    ),
    (
        276,
        "CAMERA_TRACKING_GEO_STATUS",
        "uint8_t tracking_status, int32_t lat, int32_t lon, float alt, float h_acc, float \
         v_acc, float vel_n, float vel_e, float vel_d, float vel_acc, float dist, float hdg, \
         float hdg_acc",
    ),
    (
        277,
        "CAMERA_THERMAL_RANGE",
        "uint32_t time_boot_ms, uint8_t stream_id, uint8_t camera_device_id, float max, float \
         max_point_x, float max_point_y, float min, float min_point_x, float min_point_y",
    ),
    (
        280,
        "GIMBAL_MANAGER_INFORMATION",
        "uint32_t time_boot_ms, uint32_t cap_flags, uint8_t gimbal_device_id, float roll_min, \
         float roll_max, float pitch_min, float pitch_max, float yaw_min, float yaw_max",
    ),
    (
        281,
        "GIMBAL_MANAGER_STATUS",
        "uint32_t time_boot_ms, uint32_t flags, uint8_t gimbal_device_id, uint8_t \
         primary_control_sysid, uint8_t primary_control_compid, uint8_t \
         secondary_control_sysid, uint8_t secondary_control_compid",
    ),
    (
        282,
        "GIMBAL_MANAGER_SET_ATTITUDE",
        "uint8_t target_system, uint8_t target_component, uint32_t flags, uint8_t \
         gimbal_device_id, float[4] q, float angular_velocity_x, float angular_velocity_y, \
         float angular_velocity_z",
    ),
    (
        283,
        "GIMBAL_DEVICE_INFORMATION",
        "uint32_t time_boot_ms, char[32] vendor_name, char[32] model_name, char[32] \
         custom_name, uint32_t firmware_version, uint32_t hardware_version, uint64_t uid, \
         uint16_t cap_flags, uint16_t custom_cap_flags, float roll_min, float roll_max, float \
         pitch_min, float pitch_max, float yaw_min, float yaw_max",
    ),
    (
        284,
        "GIMBAL_DEVICE_SET_ATTITUDE",
        "uint8_t target_system, uint8_t target_component, uint16_t flags, float[4] q, float \
         angular_velocity_x, float angular_velocity_y, float angular_velocity_z",
    ),
    (
        285,
        "GIMBAL_DEVICE_ATTITUDE_STATUS",
        "uint8_t target_system, uint8_t target_component, uint32_t time_boot_ms, uint16_t \
         flags, float[4] q, float angular_velocity_x, float angular_velocity_y, float \
         angular_velocity_z, uint32_t failure_flags",
    ),
    (
        286,
        "AUTOPILOT_STATE_FOR_GIMBAL_DEVICE",
        "uint8_t target_system, uint8_t target_component, uint64_t time_boot_us, float[4] q, \
         uint32_t q_estimated_delay_us, float vx, float vy, float vz, uint32_t \
         v_estimated_delay_us, float feed_forward_angular_velocity_z, uint16_t \
         estimator_status, uint8_t landed_state",
    ),
    (
        287,
        "GIMBAL_MANAGER_SET_PITCHYAW",
        "uint8_t target_system, uint8_t target_component, uint32_t flags, uint8_t \
         gimbal_device_id, float pitch, float yaw, float pitch_rate, float yaw_rate",
    ),
    (
        288,
        "GIMBAL_MANAGER_SET_MANUAL_CONTROL",
        "uint8_t target_system, uint8_t target_component, uint32_t flags, uint8_t \
         gimbal_device_id, float pitch, float yaw, float pitch_rate, float yaw_rate",
    ),
    (
        290,
        "ESC_INFO",
        "uint8_t index, uint64_t time_usec, uint16_t counter, uint8_t count, uint8_t \
         connection_type, uint8_t info, uint16_t[4] failure_flags, uint32_t[4] error_count, \
         int16_t[4] temperature",
    ),
    (
        291,
        "ESC_STATUS",
        "uint8_t index, uint64_t time_usec, int32_t[4] rpm, float[4] voltage, float[4] \
         current",
    ),
    (
        299,
        "WIFI_CONFIG_AP",
        "char[32] ssid, char[64] password",
    ),
    (
        300,
        "PROTOCOL_VERSION",
        "uint16_t version, uint16_t min_version, uint16_t max_version, uint8_t[8] \
         spec_version_hash, uint8_t[8] library_version_hash",
    ),
    (
        301,
        "AIS_VESSEL",
        "uint32_t MMSI, int32_t lat, int32_t lon, uint16_t COG, uint16_t heading, uint16_t \
         velocity, int8_t turn_rate, uint8_t navigational_status, uint8_t type, uint16_t \
         dimension_bow, uint16_t dimension_stern, uint8_t dimension_port, uint8_t \
         dimension_starboard, char[7] callsign, char[20] name, uint16_t tslc, uint16_t flags",
    ),
    (
        310,
        "UAVCAN_NODE_STATUS",
        "uint64_t time_usec, uint32_t uptime_sec, uint8_t health, uint8_t mode, uint8_t \
         sub_mode, uint16_t vendor_specific_status_code",
    ),
    (
        311,
        "UAVCAN_NODE_INFO",
        "uint64_t time_usec, uint32_t uptime_sec, char[80] name, uint8_t hw_version_major, \
         uint8_t hw_version_minor, uint8_t[16] hw_unique_id, uint8_t sw_version_major, \
         uint8_t sw_version_minor, uint32_t sw_vcs_commit",
    ),
    (
        320,
        "PARAM_EXT_REQUEST_READ",
        "uint8_t target_system, uint8_t target_component, char[16] param_id, int16_t \
         param_index",
    ),
    (
        321,
        "PARAM_EXT_REQUEST_LIST",
        "uint8_t target_system, uint8_t target_component",
    ),
    (
        322,
        "PARAM_EXT_VALUE",
        "char[16] param_id, char[128] param_value, uint8_t param_type, uint16_t param_count, \
         uint16_t param_index",
    ),
    (
        323,
        "PARAM_EXT_SET",
        "uint8_t target_system, uint8_t target_component, char[16] param_id, char[128] \
         param_value, uint8_t param_type",
    ),
    (
        324,
        "PARAM_EXT_ACK",
        "char[16] param_id, char[128] param_value, uint8_t param_type, uint8_t param_result",
    ),
    (
        330,
        "OBSTACLE_DISTANCE",
        "uint64_t time_usec, uint8_t sensor_type, uint16_t[72] distances, uint8_t increment, \
         uint16_t min_distance, uint16_t max_distance",
    ),
    (
        331,
        "ODOMETRY",
        "uint64_t time_usec, uint8_t frame_id, uint8_t child_frame_id, float x, float y, \
         float z, float[4] q, float vx, float vy, float vz, float rollspeed, float \
         pitchspeed, float yawspeed, float[21] pose_covariance, float[21] velocity_covariance",
    ),
    (
        332,
        "TRAJECTORY_REPRESENTATION_WAYPOINTS",
        "uint64_t time_usec, uint8_t valid_points, float[5] pos_x, float[5] pos_y, float[5] \
         pos_z, float[5] vel_x, float[5] vel_y, float[5] vel_z, float[5] acc_x, float[5] \
         acc_y, float[5] acc_z, float[5] pos_yaw, float[5] vel_yaw, uint16_t[5] command",
    ),
    (
        333,
        "TRAJECTORY_REPRESENTATION_BEZIER",
        "uint64_t time_usec, uint8_t valid_points, float[5] pos_x, float[5] pos_y, float[5] \
         pos_z, float[5] delta, float[5] pos_yaw",
    ),
    (
        334,
        "CELLULAR_STATUS",
        "uint8_t status, uint8_t failure_reason, uint8_t type, uint8_t quality, uint16_t mcc, \
         uint16_t mnc, uint16_t lac",
    ),
    (
        335,
        "ISBD_LINK_STATUS",
        "uint64_t timestamp, uint64_t last_heartbeat, uint16_t failed_sessions, uint16_t \
         successful_sessions, uint8_t signal_quality, uint8_t ring_pending, uint8_t \
         tx_session_pending, uint8_t rx_session_pending",
    ),
    (
        336,
        "CELLULAR_CONFIG",
        "uint8_t enable_lte, uint8_t enable_pin, char[16] pin, char[16] new_pin, char[32] \
         apn, char[16] puk, uint8_t roaming, uint8_t response",
    ),
    (
        339,
        "RAW_RPM",
        "uint8_t index, float frequency",
    ),
    (
        340,
        "UTM_GLOBAL_POSITION",
        "uint64_t time, uint8_t[18] uas_id, int32_t lat, int32_t lon, int32_t alt, int32_t \
         relative_alt, int16_t vx, int16_t vy, int16_t vz, uint16_t h_acc, uint16_t v_acc, \
         uint16_t vel_acc, int32_t next_lat, int32_t next_lon, int32_t next_alt, uint16_t \
         update_rate, uint8_t flight_state, uint8_t flags",
    ),
    (
        350,
        "DEBUG_FLOAT_ARRAY",
        "uint64_t time_usec, char[10] name, uint16_t array_id",
    ),
    (
        360,
        "ORBIT_EXECUTION_STATUS",
        "uint64_t time_usec, float radius, uint8_t frame, int32_t x, int32_t y, float z",
    ),
    (
        370,
        "SMART_BATTERY_INFO",
        "uint8_t id, uint8_t battery_function, uint8_t type, int32_t \
         capacity_full_specification, int32_t capacity_full, uint16_t cycle_count, char[16] \
         serial_number, char[50] device_name, uint16_t weight, uint16_t \
         discharge_minimum_voltage, uint16_t charging_minimum_voltage, uint16_t \
         resting_minimum_voltage",
    ),
    (
        371,
        "FUEL_STATUS",
        "uint8_t id, float maximum_fuel, float consumed_fuel, float remaining_fuel, uint8_t \
         percent_remaining, float flow_rate, float temperature, uint32_t fuel_type",
    ),
    (
        372,
        "BATTERY_INFO",
        "uint8_t id, uint8_t battery_function, uint8_t type, uint8_t state_of_health, uint8_t \
         cells_in_series, uint16_t cycle_count, uint16_t weight, float \
         discharge_minimum_voltage, float charging_minimum_voltage, float \
         resting_minimum_voltage, float charging_maximum_voltage, float \
         charging_maximum_current, float nominal_voltage, float discharge_maximum_current, \
         float discharge_maximum_burst_current, float design_capacity, float \
         full_charge_capacity, char[9] manufacture_date, char[32] serial_number, char[50] \
         name",
    ),
    (
        373,
        "GENERATOR_STATUS",
        "uint64_t status, uint16_t generator_speed, float battery_current, float \
         load_current, float power_generated, float bus_voltage, int16_t \
         rectifier_temperature, float bat_current_setpoint, int16_t generator_temperature, \
         uint32_t runtime, int32_t time_until_maintenance",
    ),
    (
        375,
        "ACTUATOR_OUTPUT_STATUS",
        "uint64_t time_usec, uint32_t active, float[32] actuator",
    ),
    (
        380,
        "TIME_ESTIMATE_TO_TARGET",
        "int32_t safe_return, int32_t land, int32_t mission_next_item, int32_t mission_end, \
         int32_t commanded_action",
    ),
    (
        385,
        "TUNNEL",
        "uint8_t target_system, uint8_t target_component, uint16_t payload_type, uint8_t \
         payload_length, uint8_t[128] payload",
    ),
    (
        386,
        "CAN_FRAME",
        "uint8_t target_system, uint8_t target_component, uint8_t bus, uint8_t len, uint32_t \
         id, uint8_t[8] data",
    ),
    (
        387,
        "CANFD_FRAME",
        "uint8_t target_system, uint8_t target_component, uint8_t bus, uint8_t len, uint32_t \
         id, uint8_t[64] data",
    ),
    (
        388,
        "CAN_FILTER_MODIFY",
        "uint8_t target_system, uint8_t target_component, uint8_t bus, uint8_t operation, \
         uint8_t num_ids, uint16_t[16] ids",
    ),
    (
        390,
        "ONBOARD_COMPUTER_STATUS",
        "uint64_t time_usec, uint32_t uptime, uint8_t type, uint8_t[8] cpu_cores, uint8_t[10] \
         cpu_combined, uint8_t[4] gpu_cores, uint8_t[10] gpu_combined, int8_t \
         temperature_board, int8_t[8] temperature_core, int16_t[4] fan_speed, uint32_t \
         ram_usage, uint32_t ram_total, uint32_t[4] storage_type, uint32_t[4] storage_usage, \
         uint32_t[4] storage_total, uint32_t[6] link_type, uint32_t[6] link_tx_rate, \
         uint32_t[6] link_rx_rate, uint32_t[6] link_tx_max, uint32_t[6] link_rx_max",
    ),
    (
        395,
        "COMPONENT_INFORMATION",
        "uint32_t time_boot_ms, uint32_t general_metadata_file_crc, char[100] \
         general_metadata_uri, uint32_t peripherals_metadata_file_crc, char[100] \
         peripherals_metadata_uri",
    ),
    (
        396,
        "COMPONENT_INFORMATION_BASIC",
        "uint64_t capabilities, uint32_t time_boot_ms, uint32_t time_manufacture_s, char[32] \
         vendor_name, char[32] model_name, char[24] software_version, char[24] \
         hardware_version, char[32] serial_number",
    ),
    (
        397,
        "COMPONENT_METADATA",
        "uint32_t time_boot_ms, uint32_t file_crc, char[100] uri",
    ),
    (
        400,
        "PLAY_TUNE_V2",
        "uint8_t target_system, uint8_t target_component, uint32_t format, char[248] tune",
    ),
    (
        401,
        "SUPPORTED_TUNES",
        "uint8_t target_system, uint8_t target_component, uint32_t format",
    ),
    (
        410,
        "EVENT",
        "uint8_t destination_component, uint8_t destination_system, uint32_t id, uint32_t \
         event_time_boot_ms, uint16_t sequence, uint8_t log_levels, uint8_t[40] arguments",
    ),
    (
        411,
        "CURRENT_EVENT_SEQUENCE",
        "uint16_t sequence, uint8_t flags",
    ),
    (
        412,
        "REQUEST_EVENT",
        "uint8_t target_system, uint8_t target_component, uint16_t first_sequence, uint16_t \
         last_sequence",
    ),
    (
        413,
        "RESPONSE_EVENT_ERROR",
        "uint8_t target_system, uint8_t target_component, uint16_t sequence, uint16_t \
         sequence_oldest_available, uint8_t reason",
    ),
    (
        435,
        "AVAILABLE_MODES",
        "uint8_t number_modes, uint8_t mode_index, uint8_t standard_mode, uint32_t \
         custom_mode, uint32_t properties, char[35] mode_name",
    ),
    (
        436,
        "CURRENT_MODE",
        "uint8_t standard_mode, uint32_t custom_mode, uint32_t intended_custom_mode",
    ),
    (
        437,
        "AVAILABLE_MODES_MONITOR",
        "uint8_t seq",
    ),
    (
        440,
        "ILLUMINATOR_STATUS",
        "uint32_t uptime_ms, uint8_t enable, uint8_t mode_bitmask, uint32_t error_status, \
         uint8_t mode, float brightness, float strobe_period, float strobe_duty_cycle, float \
         temp_c, float min_strobe_period, float max_strobe_period",
    ),
    (
        9000,
        "WHEEL_DISTANCE",
        "uint64_t time_usec, uint8_t count, double[16] distance",
    ),
    (
        9005,
        "WINCH_STATUS",
        "uint64_t time_usec, float line_length, float speed, float tension, float voltage, \
         float current, int16_t temperature, uint32_t status",
    ),
    (
        10001,
        "UAVIONIX_ADSB_OUT_CFG",
        "uint32_t ICAO, char[9] callsign, uint8_t emitterType, uint8_t aircraftSize, uint8_t \
         gpsOffsetLat, uint8_t gpsOffsetLon, uint16_t stallSpeed, uint8_t rfSelect",
    ),
    (
        10002,
        "UAVIONIX_ADSB_OUT_DYNAMIC",
        "uint32_t utcTime, int32_t gpsLat, int32_t gpsLon, int32_t gpsAlt, uint8_t gpsFix, \
         uint8_t numSats, int32_t baroAltMSL, uint32_t accuracyHor, uint16_t accuracyVert, \
         uint16_t accuracyVel, int16_t velVert, int16_t velNS, int16_t VelEW, uint8_t \
         emergencyStatus, uint16_t state, uint16_t squawk",
    ),
    (
        10003,
        "UAVIONIX_ADSB_TRANSCEIVER_HEALTH_REPORT",
        "uint8_t rfHealth",
    ),
    (
        10004,
        "UAVIONIX_ADSB_OUT_CFG_REGISTRATION",
        "char[9] registration",
    ),
    (
        10005,
        "UAVIONIX_ADSB_OUT_CFG_FLIGHTID",
        "char[9] flight_id",
    ),
    (
        10006,
        "UAVIONIX_ADSB_GET",
        "uint32_t ReqMessageId",
    ),
    (
        10007,
        "UAVIONIX_ADSB_OUT_CONTROL",
        "uint8_t state, int32_t baroAltMSL, uint16_t squawk, uint8_t emergencyStatus, char[8] \
         flight_id, uint8_t x_bit",
    ),
    (
        10008,
        "UAVIONIX_ADSB_OUT_STATUS",
        "uint8_t state, uint16_t squawk, uint8_t NIC_NACp, uint8_t boardTemp, uint8_t fault, \
         char[8] flight_id",
    ),
    (
        10151,
        "LOWEHEISER_GOV_EFI",
        "float volt_batt, float curr_batt, float curr_gen, float curr_rot, float fuel_level, \
         float throttle, uint32_t runtime, int32_t until_maintenance, float rectifier_temp, \
         float generator_temp, float efi_batt, float efi_rpm, float efi_pw, float \
         efi_fuel_flow, float efi_fuel_consumed, float efi_baro, float efi_mat, float \
         efi_clt, float efi_tps, float efi_exhaust_gas_temperature, uint8_t efi_index, \
         uint16_t generator_status, uint16_t efi_status",
    ),
    (
        11000,
        "DEVICE_OP_READ",
        "uint8_t target_system, uint8_t target_component, uint32_t request_id, uint8_t \
         bustype, uint8_t bus, uint8_t address, char[40] busname, uint8_t regstart, uint8_t \
         count",
    ),
    (
        11001,
        "DEVICE_OP_READ_REPLY",
        "uint32_t request_id, uint8_t result, uint8_t regstart, uint8_t count, uint8_t[128] \
         data",
    ),
    (
        11002,
        "DEVICE_OP_WRITE",
        "uint8_t target_system, uint8_t target_component, uint32_t request_id, uint8_t \
         bustype, uint8_t bus, uint8_t address, char[40] busname, uint8_t regstart, uint8_t \
         count, uint8_t[128] data",
    ),
    (
        11003,
        "DEVICE_OP_WRITE_REPLY",
        "uint32_t request_id, uint8_t result",
    ),
    (
        11004,
        "SECURE_COMMAND",
        "uint8_t target_system, uint8_t target_component, uint32_t sequence, uint32_t \
         operation, uint8_t data_length, uint8_t sig_length, uint8_t[220] data",
    ),
    (
        11005,
        "SECURE_COMMAND_REPLY",
        "uint32_t sequence, uint32_t operation, uint8_t result, uint8_t data_length, \
         uint8_t[220] data",
    ),
    (
        11010,
        "ADAP_TUNING",
        "uint8_t axis, float desired, float achieved, float error, float theta, float omega, \
         float sigma, float theta_dot, float omega_dot, float sigma_dot, float f, float \
         f_dot, float u",
    ),
    (
        11011,
        "VISION_POSITION_DELTA",
        "uint64_t time_usec, uint64_t time_delta_usec, float[3] angle_delta, float[3] \
         position_delta, float confidence",
    ),
    (
        11020,
        "AOA_SSA",
        "uint64_t time_usec, float AOA, float SSA",
    ),
    (
        11030,
        "ESC_TELEMETRY_1_TO_4",
        "uint8_t[4] temperature, uint16_t[4] voltage, uint16_t[4] current, uint16_t[4] \
         totalcurrent, uint16_t[4] rpm, uint16_t[4] count",
    ),
    (
        11031,
        "ESC_TELEMETRY_5_TO_8",
        "uint8_t[4] temperature, uint16_t[4] voltage, uint16_t[4] current, uint16_t[4] \
         totalcurrent, uint16_t[4] rpm, uint16_t[4] count",
    ),
    (
        11032,
        "ESC_TELEMETRY_9_TO_12",
        "uint8_t[4] temperature, uint16_t[4] voltage, uint16_t[4] current, uint16_t[4] \
         totalcurrent, uint16_t[4] rpm, uint16_t[4] count",
    ),
    (
        11033,
        "OSD_PARAM_CONFIG",
        "uint8_t target_system, uint8_t target_component, uint32_t request_id, uint8_t \
         osd_screen, uint8_t osd_index, char[16] param_id, uint8_t config_type, float \
         min_value, float max_value, float increment",
    ),
    (
        11034,
        "OSD_PARAM_CONFIG_REPLY",
        "uint32_t request_id, uint8_t result",
    ),
    (
        11035,
        "OSD_PARAM_SHOW_CONFIG",
        "uint8_t target_system, uint8_t target_component, uint32_t request_id, uint8_t \
         osd_screen, uint8_t osd_index",
    ),
    (
        11036,
        "OSD_PARAM_SHOW_CONFIG_REPLY",
        "uint32_t request_id, uint8_t result, char[16] param_id, uint8_t config_type, float \
         min_value, float max_value, float increment",
    ),
    (
        11037,
        "OBSTACLE_DISTANCE_3D",
        "uint32_t time_boot_ms, uint8_t sensor_type, uint8_t frame, uint16_t obstacle_id, \
         float x, float y, float z, float min_distance, float max_distance",
    ),
    (
        11038,
        "WATER_DEPTH",
        "uint32_t time_boot_ms, uint8_t id, uint8_t healthy, int32_t lat, int32_t lng, float \
         alt, float roll, float pitch, float yaw, float distance, float temperature",
    ),
    (
        11039,
        "MCU_STATUS",
        "uint8_t id, int16_t MCU_temperature, uint16_t MCU_voltage, uint16_t MCU_voltage_min, \
         uint16_t MCU_voltage_max",
    ),
    (
        11040,
        "ESC_TELEMETRY_13_TO_16",
        "uint8_t[4] temperature, uint16_t[4] voltage, uint16_t[4] current, uint16_t[4] \
         totalcurrent, uint16_t[4] rpm, uint16_t[4] count",
    ),
    (
        11041,
        "ESC_TELEMETRY_17_TO_20",
        "uint8_t[4] temperature, uint16_t[4] voltage, uint16_t[4] current, uint16_t[4] \
         totalcurrent, uint16_t[4] rpm, uint16_t[4] count",
    ),
    (
        11042,
        "ESC_TELEMETRY_21_TO_24",
        "uint8_t[4] temperature, uint16_t[4] voltage, uint16_t[4] current, uint16_t[4] \
         totalcurrent, uint16_t[4] rpm, uint16_t[4] count",
    ),
    (
        11043,
        "ESC_TELEMETRY_25_TO_28",
        "uint8_t[4] temperature, uint16_t[4] voltage, uint16_t[4] current, uint16_t[4] \
         totalcurrent, uint16_t[4] rpm, uint16_t[4] count",
    ),
    (
        11044,
        "ESC_TELEMETRY_29_TO_32",
        "uint8_t[4] temperature, uint16_t[4] voltage, uint16_t[4] current, uint16_t[4] \
         totalcurrent, uint16_t[4] rpm, uint16_t[4] count",
    ),
    (
        12900,
        "OPEN_DRONE_ID_BASIC_ID",
        "uint8_t target_system, uint8_t target_component, uint8_t[20] id_or_mac, uint8_t \
         id_type, uint8_t ua_type, uint8_t[20] uas_id",
    ),
    (
        12901,
        "OPEN_DRONE_ID_LOCATION",
        "uint8_t target_system, uint8_t target_component, uint8_t[20] id_or_mac, uint8_t \
         status, uint16_t direction, uint16_t speed_horizontal, int16_t speed_vertical, \
         int32_t latitude, int32_t longitude, float altitude_barometric, float \
         altitude_geodetic, uint8_t height_reference, float height, uint8_t \
         horizontal_accuracy, uint8_t vertical_accuracy, uint8_t barometer_accuracy, uint8_t \
         speed_accuracy, float timestamp, uint8_t timestamp_accuracy",
    ),
    (
        12902,
        "OPEN_DRONE_ID_AUTHENTICATION",
        "uint8_t target_system, uint8_t target_component, uint8_t[20] id_or_mac, uint8_t \
         authentication_type, uint8_t data_page, uint8_t last_page_index, uint8_t length, \
         uint32_t timestamp, uint8_t[23] authentication_data",
    ),
    (
        12903,
        "OPEN_DRONE_ID_SELF_ID",
        "uint8_t target_system, uint8_t target_component, uint8_t[20] id_or_mac, uint8_t \
         description_type, char[23] description",
    ),
    (
        12904,
        "OPEN_DRONE_ID_SYSTEM",
        "uint8_t target_system, uint8_t target_component, uint8_t[20] id_or_mac, uint8_t \
         operator_location_type, uint8_t classification_type, int32_t operator_latitude, \
         int32_t operator_longitude, uint16_t area_count, uint16_t area_radius, float \
         area_ceiling, float area_floor, uint8_t category_eu, uint8_t class_eu, float \
         operator_altitude_geo, uint32_t timestamp",
    ),
    (
        12905,
        "OPEN_DRONE_ID_OPERATOR_ID",
        "uint8_t target_system, uint8_t target_component, uint8_t[20] id_or_mac, uint8_t \
         operator_id_type, char[20] operator_id",
    ),
    (
        12915,
        "OPEN_DRONE_ID_MESSAGE_PACK",
        "uint8_t target_system, uint8_t target_component, uint8_t[20] id_or_mac, uint8_t \
         single_message_size, uint8_t msg_pack_size, uint8_t[225] messages",
    ),
    (
        12918,
        "OPEN_DRONE_ID_ARM_STATUS",
        "uint8_t status, char[50] error",
    ),
    (
        12919,
        "OPEN_DRONE_ID_SYSTEM_UPDATE",
        "uint8_t target_system, uint8_t target_component, int32_t operator_latitude, int32_t \
         operator_longitude, float operator_altitude_geo, uint32_t timestamp",
    ),
    (
        12920,
        "HYGROMETER_SENSOR",
        "uint8_t id, int16_t temperature, uint16_t humidity",
    ),
    (
        42000,
        "ICAROUS_HEARTBEAT",
        "uint8_t status",
    ),
    (
        42001,
        "ICAROUS_KINEMATIC_BANDS",
        "int8_t numBands, uint8_t type1, float min1, float max1, uint8_t type2, float min2, \
         float max2, uint8_t type3, float min3, float max3, uint8_t type4, float min4, float \
         max4, uint8_t type5, float min5, float max5",
    ),
    (
        50001,
        "CUBEPILOT_RAW_RC",
        "uint8_t[32] rc_raw",
    ),
    (
        50002,
        "HERELINK_VIDEO_STREAM_INFORMATION",
        "uint8_t camera_id, uint8_t status, float framerate, uint16_t resolution_h, uint16_t \
         resolution_v, uint32_t bitrate, uint16_t rotation, char[230] uri",
    ),
    (
        50003,
        "HERELINK_TELEM",
        "uint8_t rssi, int16_t snr, uint32_t rf_freq, uint32_t link_bw, uint32_t link_rate, \
         int16_t cpu_temp, int16_t board_temp",
    ),
    (
        50004,
        "CUBEPILOT_FIRMWARE_UPDATE_START",
        "uint8_t target_system, uint8_t target_component, uint32_t size, uint32_t crc",
    ),
    (
        50005,
        "CUBEPILOT_FIRMWARE_UPDATE_RESP",
        "uint8_t target_system, uint8_t target_component, uint32_t offset",
    ),
    (
        52000,
        "AIRLINK_AUTH",
        "char[50] login, char[50] password",
    ),
    (
        52001,
        "AIRLINK_AUTH_RESPONSE",
        "uint8_t resp_type",
    ),
    (
        52002,
        "AIRLINK_EYE_GS_HOLE_PUSH_REQUEST",
        "uint8_t resp_type",
    ),
    (
        52003,
        "AIRLINK_EYE_GS_HOLE_PUSH_RESPONSE",
        "uint8_t resp_type, uint8_t ip_version, uint8_t[4] ip_address_4, uint8_t[16] \
         ip_address_6, uint32_t ip_port",
    ),
    (
        52004,
        "AIRLINK_EYE_HP",
        "uint8_t resp_type",
    ),
    (
        52005,
        "AIRLINK_EYE_TURN_INIT",
        "uint8_t resp_type",
    ),
];

/// A field: its type without the array suffix, array length, name, and whether it is an
/// extension.
struct Field {
    wire_type: String,
    array_length: u8,
    name: String,
    is_extension: bool,
}

fn fields_of(text: &str) -> Vec<Field> {
    let mut fields = Vec::new();
    for (part, is_extension) in text.split(';').zip([false, true]) {
        for field in part.split(',') {
            let (typed, name) = field.trim().split_once(' ').expect("a type and a name");
            let (wire_type, array_length) = parse_array_suffix(typed).expect("a field type");
            fields.push(Field {
                wire_type,
                array_length,
                name: name.to_string(),
                is_extension,
            });
        }
    }
    fields
}

/// Where the field `name` starts in the payload: fields go by element size, the largest
/// first, and extensions follow as they are defined.
fn offset_of(fields: &[Field], name: &str) -> Option<u8> {
    let mut order: Vec<&Field> = fields.iter().filter(|f| !f.is_extension).collect();
    order.sort_by_key(|f| std::cmp::Reverse(type_size(&f.wire_type)));
    order.extend(fields.iter().filter(|f| f.is_extension));
    let mut at = 0;
    for field in order {
        if field.name == name {
            return Some(at as u8);
        }
        at += type_size(&field.wire_type) * usize::from(field.array_length.max(1));
    }
    None
}

#[test]
fn every_row_follows_from_its_definition() {
    assert_eq!(sorted().len(), MESSAGES.len());
    for (id, name, text) in MESSAGES {
        let fields = fields_of(text);
        let for_crc: Vec<CrcExtraField> = fields
            .iter()
            .map(|f| CrcExtraField {
                name: &f.name,
                wire_type: &f.wire_type,
                array_length: f.array_length,
                is_extension: f.is_extension,
            })
            .collect();
        let entry = lookup(*id).expect("the message is in the table");
        assert_eq!(entry.crc_extra, crc_extra_for_message(name, &for_crc), "{name}");
        assert_eq!(
            entry.target_sys_offset,
            offset_of(&fields, "target_system"),
            "{name}"
        );
        assert_eq!(
            entry.target_comp_offset,
            offset_of(&fields, "target_component"),
            "{name}"
        );
    }
}

#[test]
fn some_published_seeds() {
    for (id, crc_extra) in [
        (8, 117),
        (74, 20),
        (109, 185),
        (150, 134),
        (168, 1),
        (194, 98),
        (259, 92),
        (331, 91),
        (385, 147),
        (10003, 4),
        (11030, 144),
        (12901, 254),
        (42001, 239),
        (50001, 246),
    ] {
        assert_eq!(lookup(id).map(|e| e.crc_extra), Some(crc_extra), "{id}");
    }
}

#[test]
fn extension_targets_count() {
    let ack = lookup(77).expect("COMMAND_ACK");
    assert_eq!(ack.target_sys_offset, Some(8));
    assert_eq!(ack.target_comp_offset, Some(9));
}
