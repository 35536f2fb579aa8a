//! The messages of the `common` and `ardupilotmega` dialects, with those of the dialects
//! that these build on: checksum seed and target offsets by message id.
//!
//! A message that is not listed, of another dialect or newer than the list, is unknown:
//! its frames pass without a check of the checksum and are for everyone.

use vstd::prelude::*;

verus! {

/// What validating and routing a frame needs to know of its message.
#[derive(Debug, Clone, Copy, PartialEq, Eq, Structural)]
pub struct MsgEntry {
    /// The byte mixed into the checksum after the payload.
    pub crc_extra: u8,
    /// Offset of `target_system` in the payload, if the message has that field, be it as
    /// an extension.
    pub target_sys_offset: Option<u8>,
    /// Offset of `target_component` in the payload, if the message has that field, be it
    /// as an extension.
    pub target_comp_offset: Option<u8>,
}

/// A table row.
pub open spec fn row_spec(id: u32, crc_extra: u8, sys: Option<u8>, comp: Option<u8>) -> (
    u32,
    MsgEntry,
) {
    (id, MsgEntry { crc_extra, target_sys_offset: sys, target_comp_offset: comp })
}

/// The table, in ascending order of message id.
#[verifier::opaque]
pub open spec fn table_spec() -> Seq<(u32, MsgEntry)> {
    seq![
        row_spec(0, 50, None, None),  // HEARTBEAT
        row_spec(1, 124, None, None),  // SYS_STATUS
        row_spec(2, 137, None, None),  // SYSTEM_TIME
        row_spec(4, 237, Some(12), Some(13)),  // PING
        row_spec(5, 217, Some(0), None),  // CHANGE_OPERATOR_CONTROL
        row_spec(6, 104, None, None),  // CHANGE_OPERATOR_CONTROL_ACK
        row_spec(7, 119, None, None),  // AUTH_KEY
        row_spec(8, 117, None, None),  // LINK_NODE_STATUS
        row_spec(11, 89, Some(4), None),  // SET_MODE
        row_spec(20, 214, Some(2), Some(3)),  // PARAM_REQUEST_READ
        row_spec(21, 159, Some(0), Some(1)),  // PARAM_REQUEST_LIST
        row_spec(22, 220, None, None),  // PARAM_VALUE
        row_spec(23, 168, Some(4), Some(5)),  // PARAM_SET
        row_spec(24, 24, None, None),  // GPS_RAW_INT
        row_spec(25, 23, None, None),  // GPS_STATUS
        row_spec(26, 170, None, None),  // SCALED_IMU
        row_spec(27, 144, None, None),  // RAW_IMU
        row_spec(28, 67, None, None),  // RAW_PRESSURE
        row_spec(29, 115, None, None),  // SCALED_PRESSURE
        row_spec(30, 39, None, None),  // ATTITUDE
        row_spec(31, 246, None, None),  // ATTITUDE_QUATERNION
        row_spec(32, 185, None, None),  // LOCAL_POSITION_NED
        row_spec(33, 104, None, None),  // GLOBAL_POSITION_INT
        row_spec(34, 237, None, None),  // RC_CHANNELS_SCALED
        row_spec(35, 244, None, None),  // RC_CHANNELS_RAW
        row_spec(36, 222, None, None),  // SERVO_OUTPUT_RAW
        row_spec(37, 212, Some(4), Some(5)),  // MISSION_REQUEST_PARTIAL_LIST
        row_spec(38, 9, Some(4), Some(5)),  // MISSION_WRITE_PARTIAL_LIST
        row_spec(39, 254, Some(32), Some(33)),  // MISSION_ITEM
        row_spec(40, 230, Some(2), Some(3)),  // MISSION_REQUEST
        row_spec(41, 28, Some(2), Some(3)),  // MISSION_SET_CURRENT
        row_spec(42, 28, None, None),  // MISSION_CURRENT
        row_spec(43, 132, Some(0), Some(1)),  // MISSION_REQUEST_LIST
        row_spec(44, 221, Some(2), Some(3)),  // MISSION_COUNT
        row_spec(45, 232, Some(0), Some(1)),  // MISSION_CLEAR_ALL
        row_spec(46, 11, None, None),  // MISSION_ITEM_REACHED
        row_spec(47, 153, Some(0), Some(1)),  // MISSION_ACK
        row_spec(48, 41, Some(12), None),  // SET_GPS_GLOBAL_ORIGIN
        row_spec(49, 39, None, None),  // GPS_GLOBAL_ORIGIN
        row_spec(50, 78, Some(18), Some(19)),  // PARAM_MAP_RC
        row_spec(51, 196, Some(2), Some(3)),  // MISSION_REQUEST_INT
        row_spec(54, 15, Some(24), Some(25)),  // SAFETY_SET_ALLOWED_AREA
        row_spec(55, 3, None, None),  // SAFETY_ALLOWED_AREA
        row_spec(61, 167, None, None),  // ATTITUDE_QUATERNION_COV
        row_spec(62, 183, None, None),  // NAV_CONTROLLER_OUTPUT
        row_spec(63, 119, None, None),  // GLOBAL_POSITION_INT_COV
        row_spec(64, 191, None, None),  // LOCAL_POSITION_NED_COV
        row_spec(65, 118, None, None),  // RC_CHANNELS
        row_spec(66, 148, Some(2), Some(3)),  // REQUEST_DATA_STREAM
        row_spec(67, 21, None, None),  // DATA_STREAM
        row_spec(69, 243, None, None),  // MANUAL_CONTROL
        row_spec(70, 124, Some(16), Some(17)),  // RC_CHANNELS_OVERRIDE
        row_spec(73, 38, Some(32), Some(33)),  // MISSION_ITEM_INT
        row_spec(74, 20, None, None),  // VFR_HUD
        row_spec(75, 158, Some(30), Some(31)),  // COMMAND_INT
        row_spec(76, 152, Some(30), Some(31)),  // COMMAND_LONG
        row_spec(77, 143, Some(8), Some(9)),  // COMMAND_ACK
        row_spec(80, 14, Some(2), Some(3)),  // COMMAND_CANCEL
        row_spec(81, 106, None, None),  // MANUAL_SETPOINT
        row_spec(82, 49, Some(36), Some(37)),  // SET_ATTITUDE_TARGET
        row_spec(83, 22, None, None),  // ATTITUDE_TARGET
        row_spec(84, 143, Some(50), Some(51)),  // SET_POSITION_TARGET_LOCAL_NED
        row_spec(85, 140, None, None),  // POSITION_TARGET_LOCAL_NED
        row_spec(86, 5, Some(50), Some(51)),  // SET_POSITION_TARGET_GLOBAL_INT
        row_spec(87, 150, None, None),  // POSITION_TARGET_GLOBAL_INT
        row_spec(89, 231, None, None),  // LOCAL_POSITION_NED_SYSTEM_GLOBAL_OFFSET
        row_spec(90, 183, None, None),  // HIL_STATE
        row_spec(91, 63, None, None),  // HIL_CONTROLS
        row_spec(92, 54, None, None),  // HIL_RC_INPUTS_RAW
        row_spec(93, 47, None, None),  // HIL_ACTUATOR_CONTROLS
        row_spec(100, 175, None, None),  // OPTICAL_FLOW
        row_spec(101, 102, None, None),  // GLOBAL_VISION_POSITION_ESTIMATE
        row_spec(102, 158, None, None),  // VISION_POSITION_ESTIMATE
        row_spec(103, 208, None, None),  // VISION_SPEED_ESTIMATE
        row_spec(104, 56, None, None),  // VICON_POSITION_ESTIMATE
        row_spec(105, 93, None, None),  // HIGHRES_IMU
        row_spec(106, 138, None, None),  // OPTICAL_FLOW_RAD
        row_spec(107, 108, None, None),  // HIL_SENSOR
        row_spec(108, 32, None, None),  // SIM_STATE
        row_spec(109, 185, None, None),  // RADIO_STATUS
        row_spec(110, 84, Some(1), Some(2)),  // FILE_TRANSFER_PROTOCOL
        row_spec(111, 34, None, None),  // TIMESYNC
        row_spec(112, 174, None, None),  // CAMERA_TRIGGER
        row_spec(113, 124, None, None),  // HIL_GPS
        row_spec(114, 237, None, None),  // HIL_OPTICAL_FLOW
        row_spec(115, 4, None, None),  // HIL_STATE_QUATERNION
        row_spec(116, 76, None, None),  // SCALED_IMU2
        row_spec(117, 128, Some(4), Some(5)),  // LOG_REQUEST_LIST
        row_spec(118, 56, None, None),  // LOG_ENTRY
        row_spec(119, 116, Some(10), Some(11)),  // LOG_REQUEST_DATA
        row_spec(120, 134, None, None),  // LOG_DATA
        row_spec(121, 237, Some(0), Some(1)),  // LOG_ERASE
        row_spec(122, 203, Some(0), Some(1)),  // LOG_REQUEST_END
        row_spec(123, 250, Some(0), Some(1)),  // GPS_INJECT_DATA
        row_spec(124, 87, None, None),  // GPS2_RAW
        row_spec(125, 203, None, None),  // POWER_STATUS
        row_spec(126, 220, Some(79), Some(80)),  // SERIAL_CONTROL
        row_spec(127, 25, None, None),  // GPS_RTK
        row_spec(128, 226, None, None),  // GPS2_RTK
        row_spec(129, 46, None, None),  // SCALED_IMU3
        row_spec(130, 29, None, None),  // DATA_TRANSMISSION_HANDSHAKE
        row_spec(131, 223, None, None),  // ENCAPSULATED_DATA
        row_spec(132, 85, None, None),  // DISTANCE_SENSOR
        row_spec(133, 6, None, None),  // TERRAIN_REQUEST
        row_spec(134, 229, None, None),  // TERRAIN_DATA
        row_spec(135, 203, None, None),  // TERRAIN_CHECK
        row_spec(136, 1, None, None),  // TERRAIN_REPORT
        row_spec(137, 195, None, None),  // SCALED_PRESSURE2
        row_spec(138, 109, None, None),  // ATT_POS_MOCAP
        row_spec(139, 168, Some(41), Some(42)),  // SET_ACTUATOR_CONTROL_TARGET
        row_spec(140, 181, None, None),  // ACTUATOR_CONTROL_TARGET
        row_spec(141, 47, None, None),  // ALTITUDE
        row_spec(142, 72, None, None),  // RESOURCE_REQUEST
        row_spec(143, 131, None, None),  // SCALED_PRESSURE3
        row_spec(144, 127, None, None),  // FOLLOW_TARGET
        row_spec(146, 103, None, None),  // CONTROL_SYSTEM_STATE
        row_spec(147, 154, None, None),  // BATTERY_STATUS
        row_spec(148, 178, None, None),  // AUTOPILOT_VERSION
        row_spec(149, 200, None, None),  // LANDING_TARGET
        row_spec(150, 134, None, None),  // SENSOR_OFFSETS
        row_spec(151, 219, Some(6), Some(7)),  // SET_MAG_OFFSETS
        row_spec(152, 208, None, None),  // MEMINFO
        row_spec(153, 188, None, None),  // AP_ADC
        row_spec(154, 84, Some(6), Some(7)),  // DIGICAM_CONFIGURE
        row_spec(155, 22, Some(4), Some(5)),  // DIGICAM_CONTROL
        row_spec(156, 19, Some(0), Some(1)),  // MOUNT_CONFIGURE
        row_spec(157, 21, Some(12), Some(13)),  // MOUNT_CONTROL
        row_spec(158, 134, Some(12), Some(13)),  // MOUNT_STATUS
        row_spec(160, 78, Some(8), Some(9)),  // FENCE_POINT
        row_spec(161, 68, Some(0), Some(1)),  // FENCE_FETCH_POINT
        row_spec(162, 189, None, None),  // FENCE_STATUS
        row_spec(163, 127, None, None),  // AHRS
        row_spec(164, 154, None, None),  // SIMSTATE
        row_spec(165, 21, None, None),  // HWSTATUS
        row_spec(166, 21, None, None),  // RADIO
        row_spec(167, 144, None, None),  // LIMITS_STATUS
        row_spec(168, 1, None, None),  // WIND
        row_spec(169, 234, None, None),  // DATA16
        row_spec(170, 73, None, None),  // DATA32
        row_spec(171, 181, None, None),  // DATA64
        row_spec(172, 22, None, None),  // DATA96
        row_spec(173, 83, None, None),  // RANGEFINDER
        row_spec(174, 167, None, None),  // AIRSPEED_AUTOCAL
        row_spec(175, 138, Some(14), Some(15)),  // RALLY_POINT
        row_spec(176, 234, Some(0), Some(1)),  // RALLY_FETCH_POINT
        row_spec(177, 240, None, None),  // COMPASSMOT_STATUS
        row_spec(178, 47, None, None),  // AHRS2
        row_spec(179, 189, Some(26), None),  // CAMERA_STATUS
        row_spec(180, 52, Some(42), None),  // CAMERA_FEEDBACK
        row_spec(181, 174, None, None),  // BATTERY2
        row_spec(182, 229, None, None),  // AHRS3
        row_spec(183, 85, Some(0), Some(1)),  // AUTOPILOT_VERSION_REQUEST
        row_spec(184, 159, Some(4), Some(5)),  // REMOTE_LOG_DATA_BLOCK
        row_spec(185, 186, Some(4), Some(5)),  // REMOTE_LOG_BLOCK_STATUS
        row_spec(186, 72, Some(0), Some(1)),  // LED_CONTROL
        row_spec(191, 92, None, None),  // MAG_CAL_PROGRESS
        row_spec(192, 36, None, None),  // MAG_CAL_REPORT
        row_spec(193, 71, None, None),  // EKF_STATUS_REPORT
        row_spec(194, 98, None, None),  // PID_TUNING
        row_spec(195, 120, None, None),  // DEEPSTALL
        row_spec(200, 134, Some(40), Some(41)),  // GIMBAL_REPORT
        row_spec(201, 205, Some(12), Some(13)),  // GIMBAL_CONTROL
        row_spec(214, 69, Some(6), Some(7)),  // GIMBAL_TORQUE_CMD_REPORT
        row_spec(215, 101, None, None),  // GOPRO_HEARTBEAT
        row_spec(216, 50, Some(0), Some(1)),  // GOPRO_GET_REQUEST
        row_spec(217, 202, None, None),  // GOPRO_GET_RESPONSE
        row_spec(218, 17, Some(0), Some(1)),  // GOPRO_SET_REQUEST
        row_spec(219, 162, None, None),  // GOPRO_SET_RESPONSE
        row_spec(225, 208, None, None),  // EFI_STATUS
        row_spec(226, 207, None, None),  // RPM
        row_spec(230, 163, None, None),  // ESTIMATOR_STATUS
        row_spec(231, 105, None, None),  // WIND_COV
        row_spec(232, 151, None, None),  // GPS_INPUT
        row_spec(233, 35, None, None),  // GPS_RTCM_DATA
        row_spec(234, 150, None, None),  // HIGH_LATENCY
        row_spec(235, 179, None, None),  // HIGH_LATENCY2
        row_spec(241, 90, None, None),  // VIBRATION
        row_spec(242, 104, None, None),  // HOME_POSITION
        row_spec(243, 85, Some(52), None),  // SET_HOME_POSITION
        row_spec(244, 95, None, None),  // MESSAGE_INTERVAL
        row_spec(245, 130, None, None),  // EXTENDED_SYS_STATE
        row_spec(246, 184, None, None),  // ADSB_VEHICLE
        row_spec(247, 81, None, None),  // COLLISION
        row_spec(248, 8, Some(3), Some(4)),  // V2_EXTENSION
        row_spec(249, 204, None, None),  // MEMORY_VECT
        row_spec(250, 49, None, None),  // DEBUG_VECT
        row_spec(251, 170, None, None),  // NAMED_VALUE_FLOAT
        row_spec(252, 44, None, None),  // NAMED_VALUE_INT
        row_spec(253, 83, None, None),  // STATUSTEXT
        row_spec(254, 46, None, None),  // DEBUG
        row_spec(256, 71, Some(8), Some(9)),  // SETUP_SIGNING
        row_spec(257, 131, None, None),  // BUTTON_CHANGE
        row_spec(258, 187, Some(0), Some(1)),  // PLAY_TUNE
        row_spec(259, 92, None, None),  // CAMERA_INFORMATION
        row_spec(260, 146, None, None),  // CAMERA_SETTINGS
        row_spec(261, 179, None, None),  // STORAGE_INFORMATION
        row_spec(262, 12, None, None),  // CAMERA_CAPTURE_STATUS
        row_spec(263, 133, None, None),  // CAMERA_IMAGE_CAPTURED
        row_spec(264, 49, None, None),  // FLIGHT_INFORMATION
        row_spec(265, 26, None, None),  // MOUNT_ORIENTATION
        row_spec(266, 193, Some(2), Some(3)),  // LOGGING_DATA
        row_spec(267, 35, Some(2), Some(3)),  // LOGGING_DATA_ACKED
        row_spec(268, 14, Some(2), Some(3)),  // LOGGING_ACK
        row_spec(269, 109, None, None),  // VIDEO_STREAM_INFORMATION
        row_spec(270, 59, None, None),  // VIDEO_STREAM_STATUS
        row_spec(271, 22, None, None),  // CAMERA_FOV_STATUS
        row_spec(275, 126, None, None),  // CAMERA_TRACKING_IMAGE_STATUS
        row_spec(276, 18, None, None),  // CAMERA_TRACKING_GEO_STATUS
        row_spec(277, 62, None, None),  // CAMERA_THERMAL_RANGE
        row_spec(280, 70, None, None),  // GIMBAL_MANAGER_INFORMATION
        row_spec(281, 48, None, None),  // GIMBAL_MANAGER_STATUS
        row_spec(282, 123, Some(32), Some(33)),  // GIMBAL_MANAGER_SET_ATTITUDE
        row_spec(283, 74, None, None),  // GIMBAL_DEVICE_INFORMATION
        row_spec(284, 99, Some(30), Some(31)),  // GIMBAL_DEVICE_SET_ATTITUDE
        row_spec(285, 137, Some(38), Some(39)),  // GIMBAL_DEVICE_ATTITUDE_STATUS
        row_spec(286, 210, Some(50), Some(51)),  // AUTOPILOT_STATE_FOR_GIMBAL_DEVICE
        row_spec(287, 1, Some(20), Some(21)),  // GIMBAL_MANAGER_SET_PITCHYAW
        row_spec(288, 20, Some(20), Some(21)),  // GIMBAL_MANAGER_SET_MANUAL_CONTROL
        row_spec(290, 251, None, None),  // ESC_INFO
        row_spec(291, 10, None, None),  // ESC_STATUS
        row_spec(299, 19, None, None),  // WIFI_CONFIG_AP
        row_spec(300, 217, None, None),  // PROTOCOL_VERSION
        row_spec(301, 243, None, None),  // AIS_VESSEL
        row_spec(310, 28, None, None),  // UAVCAN_NODE_STATUS
        row_spec(311, 95, None, None),  // UAVCAN_NODE_INFO
        row_spec(320, 243, Some(2), Some(3)),  // PARAM_EXT_REQUEST_READ
        row_spec(321, 88, Some(0), Some(1)),  // PARAM_EXT_REQUEST_LIST
        row_spec(322, 243, None, None),  // PARAM_EXT_VALUE
        row_spec(323, 78, Some(0), Some(1)),  // PARAM_EXT_SET
        row_spec(324, 132, None, None),  // PARAM_EXT_ACK
        row_spec(330, 23, None, None),  // OBSTACLE_DISTANCE
        row_spec(331, 91, None, None),  // ODOMETRY
        row_spec(332, 236, None, None),  // TRAJECTORY_REPRESENTATION_WAYPOINTS
        row_spec(333, 231, None, None),  // TRAJECTORY_REPRESENTATION_BEZIER
        row_spec(334, 72, None, None),  // CELLULAR_STATUS
        row_spec(335, 225, None, None),  // ISBD_LINK_STATUS
        row_spec(336, 245, None, None),  // CELLULAR_CONFIG
        row_spec(339, 199, None, None),  // RAW_RPM
        row_spec(340, 99, None, None),  // UTM_GLOBAL_POSITION
        row_spec(350, 232, None, None),  // DEBUG_FLOAT_ARRAY
        row_spec(360, 11, None, None),  // ORBIT_EXECUTION_STATUS
        row_spec(370, 75, None, None),  // SMART_BATTERY_INFO
        row_spec(371, 10, None, None),  // FUEL_STATUS
        row_spec(372, 26, None, None),  // BATTERY_INFO
        row_spec(373, 117, None, None),  // GENERATOR_STATUS
        row_spec(375, 251, None, None),  // ACTUATOR_OUTPUT_STATUS
        row_spec(380, 232, None, None),  // TIME_ESTIMATE_TO_TARGET
        row_spec(385, 147, Some(2), Some(3)),  // TUNNEL
        row_spec(386, 132, Some(4), Some(5)),  // CAN_FRAME
        row_spec(387, 4, Some(4), Some(5)),  // CANFD_FRAME
        row_spec(388, 8, Some(32), Some(33)),  // CAN_FILTER_MODIFY
        row_spec(390, 156, None, None),  // ONBOARD_COMPUTER_STATUS
        row_spec(395, 0, None, None),  // COMPONENT_INFORMATION
        row_spec(396, 50, None, None),  // COMPONENT_INFORMATION_BASIC
        row_spec(397, 182, None, None),  // COMPONENT_METADATA
        row_spec(400, 110, Some(4), Some(5)),  // PLAY_TUNE_V2
        row_spec(401, 183, Some(4), Some(5)),  // SUPPORTED_TUNES
        row_spec(410, 160, None, None),  // EVENT
        row_spec(411, 106, None, None),  // CURRENT_EVENT_SEQUENCE
        row_spec(412, 33, Some(4), Some(5)),  // REQUEST_EVENT
        row_spec(413, 77, Some(4), Some(5)),  // RESPONSE_EVENT_ERROR
        row_spec(435, 134, None, None),  // AVAILABLE_MODES
        row_spec(436, 193, None, None),  // CURRENT_MODE
        row_spec(437, 30, None, None),  // AVAILABLE_MODES_MONITOR
        row_spec(440, 66, None, None),  // ILLUMINATOR_STATUS
        row_spec(9000, 113, None, None),  // WHEEL_DISTANCE
        row_spec(9005, 117, None, None),  // WINCH_STATUS
        row_spec(10001, 209, None, None),  // UAVIONIX_ADSB_OUT_CFG
        row_spec(10002, 186, None, None),  // UAVIONIX_ADSB_OUT_DYNAMIC
        row_spec(10003, 4, None, None),  // UAVIONIX_ADSB_TRANSCEIVER_HEALTH_REPORT
        row_spec(10004, 133, None, None),  // UAVIONIX_ADSB_OUT_CFG_REGISTRATION
        row_spec(10005, 103, None, None),  // UAVIONIX_ADSB_OUT_CFG_FLIGHTID
        row_spec(10006, 193, None, None),  // UAVIONIX_ADSB_GET
        row_spec(10007, 71, None, None),  // UAVIONIX_ADSB_OUT_CONTROL
        row_spec(10008, 240, None, None),  // UAVIONIX_ADSB_OUT_STATUS
        row_spec(10151, 195, None, None),  // LOWEHEISER_GOV_EFI
        row_spec(11000, 134, Some(4), Some(5)),  // DEVICE_OP_READ
        row_spec(11001, 15, None, None),  // DEVICE_OP_READ_REPLY
        row_spec(11002, 234, Some(4), Some(5)),  // DEVICE_OP_WRITE
        row_spec(11003, 64, None, None),  // DEVICE_OP_WRITE_REPLY
        row_spec(11004, 11, Some(8), Some(9)),  // SECURE_COMMAND
        row_spec(11005, 93, None, None),  // SECURE_COMMAND_REPLY
        row_spec(11010, 46, None, None),  // ADAP_TUNING
        row_spec(11011, 106, None, None),  // VISION_POSITION_DELTA
        row_spec(11020, 205, None, None),  // AOA_SSA
        row_spec(11030, 144, None, None),  // ESC_TELEMETRY_1_TO_4
        row_spec(11031, 133, None, None),  // ESC_TELEMETRY_5_TO_8
        row_spec(11032, 85, None, None),  // ESC_TELEMETRY_9_TO_12
        row_spec(11033, 195, Some(16), Some(17)),  // OSD_PARAM_CONFIG
        row_spec(11034, 79, None, None),  // OSD_PARAM_CONFIG_REPLY
        row_spec(11035, 128, Some(4), Some(5)),  // OSD_PARAM_SHOW_CONFIG
        row_spec(11036, 177, None, None),  // OSD_PARAM_SHOW_CONFIG_REPLY
        row_spec(11037, 130, None, None),  // OBSTACLE_DISTANCE_3D
        row_spec(11038, 47, None, None),  // WATER_DEPTH
        row_spec(11039, 142, None, None),  // MCU_STATUS
        row_spec(11040, 132, None, None),  // ESC_TELEMETRY_13_TO_16
        row_spec(11041, 208, None, None),  // ESC_TELEMETRY_17_TO_20
        row_spec(11042, 201, None, None),  // ESC_TELEMETRY_21_TO_24
        row_spec(11043, 193, None, None),  // ESC_TELEMETRY_25_TO_28
        row_spec(11044, 189, None, None),  // ESC_TELEMETRY_29_TO_32
        row_spec(12900, 114, Some(0), Some(1)),  // OPEN_DRONE_ID_BASIC_ID
        row_spec(12901, 254, Some(30), Some(31)),  // OPEN_DRONE_ID_LOCATION
        row_spec(12902, 140, Some(4), Some(5)),  // OPEN_DRONE_ID_AUTHENTICATION
        row_spec(12903, 249, Some(0), Some(1)),  // OPEN_DRONE_ID_SELF_ID
        row_spec(12904, 77, Some(28), Some(29)),  // OPEN_DRONE_ID_SYSTEM
        row_spec(12905, 49, Some(0), Some(1)),  // OPEN_DRONE_ID_OPERATOR_ID
        row_spec(12915, 94, Some(0), Some(1)),  // OPEN_DRONE_ID_MESSAGE_PACK
        row_spec(12918, 139, None, None),  // OPEN_DRONE_ID_ARM_STATUS
        row_spec(12919, 7, Some(16), Some(17)),  // OPEN_DRONE_ID_SYSTEM_UPDATE
        row_spec(12920, 20, None, None),  // HYGROMETER_SENSOR
        row_spec(42000, 227, None, None),  // ICAROUS_HEARTBEAT
        row_spec(42001, 239, None, None),  // ICAROUS_KINEMATIC_BANDS
        row_spec(50001, 246, None, None),  // CUBEPILOT_RAW_RC
        row_spec(50002, 181, None, None),  // HERELINK_VIDEO_STREAM_INFORMATION
        row_spec(50003, 62, None, None),  // HERELINK_TELEM
        row_spec(50004, 240, Some(8), Some(9)),  // CUBEPILOT_FIRMWARE_UPDATE_START
        row_spec(50005, 152, Some(4), Some(5)),  // CUBEPILOT_FIRMWARE_UPDATE_RESP
        row_spec(52000, 13, None, None),  // AIRLINK_AUTH
        row_spec(52001, 239, None, None),  // AIRLINK_AUTH_RESPONSE
        row_spec(52002, 24, None, None),  // AIRLINK_EYE_GS_HOLE_PUSH_REQUEST
        row_spec(52003, 166, None, None),  // AIRLINK_EYE_GS_HOLE_PUSH_RESPONSE
        row_spec(52004, 39, None, None),  // AIRLINK_EYE_HP
        row_spec(52005, 145, None, None),  // AIRLINK_EYE_TURN_INIT
    ]
}

/// The table, in ascending order of message id.
pub fn sorted() -> (r: &'static [(u32, MsgEntry)])
    ensures
        r@ == table_spec(),
{
    let r: &'static [(u32, MsgEntry); 323] = &[
        (
            0,
            MsgEntry { crc_extra: 50, target_sys_offset: None, target_comp_offset: None },
        ),
        (
            1,
            MsgEntry { crc_extra: 124, target_sys_offset: None, target_comp_offset: None },
        ),
        (
            2,
            MsgEntry { crc_extra: 137, target_sys_offset: None, target_comp_offset: None },
        ),
        (
            4,
            MsgEntry { crc_extra: 237, target_sys_offset: Some(12), target_comp_offset: Some(13) },
        ),
        (
            5,
            MsgEntry { crc_extra: 217, target_sys_offset: Some(0), target_comp_offset: None },
        ),
        (
            6,
            MsgEntry { crc_extra: 104, target_sys_offset: None, target_comp_offset: None },
        ),
        (
            7,
            MsgEntry { crc_extra: 119, target_sys_offset: None, target_comp_offset: None },
        ),
        (
            8,
            MsgEntry { crc_extra: 117, target_sys_offset: None, target_comp_offset: None },
        ),
        (
            11,
            MsgEntry { crc_extra: 89, target_sys_offset: Some(4), target_comp_offset: None },
        ),
        (
            20,
            MsgEntry { crc_extra: 214, target_sys_offset: Some(2), target_comp_offset: Some(3) },
        ),
        (
            21,
            MsgEntry { crc_extra: 159, target_sys_offset: Some(0), target_comp_offset: Some(1) },
        ),
        (
            22,
            MsgEntry { crc_extra: 220, target_sys_offset: None, target_comp_offset: None },
        ),
        (
            23,
            MsgEntry { crc_extra: 168, target_sys_offset: Some(4), target_comp_offset: Some(5) },
        ),
        (
            24,
            MsgEntry { crc_extra: 24, target_sys_offset: None, target_comp_offset: None },
        ),
        (
            25,
            MsgEntry { crc_extra: 23, target_sys_offset: None, target_comp_offset: None },
        ),
        (
            26,
            MsgEntry { crc_extra: 170, target_sys_offset: None, target_comp_offset: None },
        ),
        (
            27,
            MsgEntry { crc_extra: 144, target_sys_offset: None, target_comp_offset: None },
        ),
        (
            28,
            MsgEntry { crc_extra: 67, target_sys_offset: None, target_comp_offset: None },
        ),
        (
            29,
            MsgEntry { crc_extra: 115, target_sys_offset: None, target_comp_offset: None },
        ),
        (
            30,
            MsgEntry { crc_extra: 39, target_sys_offset: None, target_comp_offset: None },
        ),
        (
            31,
            MsgEntry { crc_extra: 246, target_sys_offset: None, target_comp_offset: None },
        ),
        (
            32,
            MsgEntry { crc_extra: 185, target_sys_offset: None, target_comp_offset: None },
        ),
        (
            33,
            MsgEntry { crc_extra: 104, target_sys_offset: None, target_comp_offset: None },
        ),
        (
            34,
            MsgEntry { crc_extra: 237, target_sys_offset: None, target_comp_offset: None },
        ),
        (
            35,
            MsgEntry { crc_extra: 244, target_sys_offset: None, target_comp_offset: None },
        ),
        (
            36,
            MsgEntry { crc_extra: 222, target_sys_offset: None, target_comp_offset: None },
        ),
        (
            37,
            MsgEntry { crc_extra: 212, target_sys_offset: Some(4), target_comp_offset: Some(5) },
        ),
        (
            38,
            MsgEntry { crc_extra: 9, target_sys_offset: Some(4), target_comp_offset: Some(5) },
        ),
        (
            39,
            MsgEntry { crc_extra: 254, target_sys_offset: Some(32), target_comp_offset: Some(33) },
        ),
        (
            40,
            MsgEntry { crc_extra: 230, target_sys_offset: Some(2), target_comp_offset: Some(3) },
        ),
        (
            41,
            MsgEntry { crc_extra: 28, target_sys_offset: Some(2), target_comp_offset: Some(3) },
        ),
        (
            42,
            MsgEntry { crc_extra: 28, target_sys_offset: None, target_comp_offset: None },
        ),
        (
            43,
            MsgEntry { crc_extra: 132, target_sys_offset: Some(0), target_comp_offset: Some(1) },
        ),
        (
            44,
            MsgEntry { crc_extra: 221, target_sys_offset: Some(2), target_comp_offset: Some(3) },
        ),
        (
            45,
            MsgEntry { crc_extra: 232, target_sys_offset: Some(0), target_comp_offset: Some(1) },
        ),
        (
            46,
            MsgEntry { crc_extra: 11, target_sys_offset: None, target_comp_offset: None },
        ),
        (
            47,
            MsgEntry { crc_extra: 153, target_sys_offset: Some(0), target_comp_offset: Some(1) },
        ),
        (
            48,
            MsgEntry { crc_extra: 41, target_sys_offset: Some(12), target_comp_offset: None },
        ),
        (
            49,
            MsgEntry { crc_extra: 39, target_sys_offset: None, target_comp_offset: None },
        ),
        (
            50,
            MsgEntry { crc_extra: 78, target_sys_offset: Some(18), target_comp_offset: Some(19) },
        ),
        (
            51,
            MsgEntry { crc_extra: 196, target_sys_offset: Some(2), target_comp_offset: Some(3) },
        ),
        (
            54,
            MsgEntry { crc_extra: 15, target_sys_offset: Some(24), target_comp_offset: Some(25) },
        ),
        (
            55,
            MsgEntry { crc_extra: 3, target_sys_offset: None, target_comp_offset: None },
        ),
        (
            61,
            MsgEntry { crc_extra: 167, target_sys_offset: None, target_comp_offset: None },
        ),
        (
            62,
            MsgEntry { crc_extra: 183, target_sys_offset: None, target_comp_offset: None },
        ),
        (
            63,
            MsgEntry { crc_extra: 119, target_sys_offset: None, target_comp_offset: None },
        ),
        (
            64,
            MsgEntry { crc_extra: 191, target_sys_offset: None, target_comp_offset: None },
        ),
        (
            65,
            MsgEntry { crc_extra: 118, target_sys_offset: None, target_comp_offset: None },
        ),
        (
            66,
            MsgEntry { crc_extra: 148, target_sys_offset: Some(2), target_comp_offset: Some(3) },
        ),
        (
            67,
            MsgEntry { crc_extra: 21, target_sys_offset: None, target_comp_offset: None },
        ),
        (
            69,
            MsgEntry { crc_extra: 243, target_sys_offset: None, target_comp_offset: None },
        ),
        (
            70,
            MsgEntry { crc_extra: 124, target_sys_offset: Some(16), target_comp_offset: Some(17) },
        ),
        (
            73,
            MsgEntry { crc_extra: 38, target_sys_offset: Some(32), target_comp_offset: Some(33) },
        ),
        (
            74,
            MsgEntry { crc_extra: 20, target_sys_offset: None, target_comp_offset: None },
        ),
        (
            75,
            MsgEntry { crc_extra: 158, target_sys_offset: Some(30), target_comp_offset: Some(31) },
        ),
        (
            76,
            MsgEntry { crc_extra: 152, target_sys_offset: Some(30), target_comp_offset: Some(31) },
        ),
        (
            77,
            MsgEntry { crc_extra: 143, target_sys_offset: Some(8), target_comp_offset: Some(9) },
        ),
        (
            80,
            MsgEntry { crc_extra: 14, target_sys_offset: Some(2), target_comp_offset: Some(3) },
        ),
        (
            81,
            MsgEntry { crc_extra: 106, target_sys_offset: None, target_comp_offset: None },
        ),
        (
            82,
            MsgEntry { crc_extra: 49, target_sys_offset: Some(36), target_comp_offset: Some(37) },
        ),
        (
            83,
            MsgEntry { crc_extra: 22, target_sys_offset: None, target_comp_offset: None },
        ),
        (
            84,
            MsgEntry { crc_extra: 143, target_sys_offset: Some(50), target_comp_offset: Some(51) },
        ),
        (
            85,
            MsgEntry { crc_extra: 140, target_sys_offset: None, target_comp_offset: None },
        ),
        (
            86,
            MsgEntry { crc_extra: 5, target_sys_offset: Some(50), target_comp_offset: Some(51) },
        ),
        (
            87,
            MsgEntry { crc_extra: 150, target_sys_offset: None, target_comp_offset: None },
        ),
        (
            89,
            MsgEntry { crc_extra: 231, target_sys_offset: None, target_comp_offset: None },
        ),
        (
            90,
            MsgEntry { crc_extra: 183, target_sys_offset: None, target_comp_offset: None },
        ),
        (
            91,
            MsgEntry { crc_extra: 63, target_sys_offset: None, target_comp_offset: None },
        ),
        (
            92,
            MsgEntry { crc_extra: 54, target_sys_offset: None, target_comp_offset: None },
        ),
        (
            93,
            MsgEntry { crc_extra: 47, target_sys_offset: None, target_comp_offset: None },
        ),
        (
            100,
            MsgEntry { crc_extra: 175, target_sys_offset: None, target_comp_offset: None },
        ),
        (
            101,
            MsgEntry { crc_extra: 102, target_sys_offset: None, target_comp_offset: None },
        ),
        (
            102,
            MsgEntry { crc_extra: 158, target_sys_offset: None, target_comp_offset: None },
        ),
        (
            103,
            MsgEntry { crc_extra: 208, target_sys_offset: None, target_comp_offset: None },
        ),
        (
            104,
            MsgEntry { crc_extra: 56, target_sys_offset: None, target_comp_offset: None },
        ),
        (
            105,
            MsgEntry { crc_extra: 93, target_sys_offset: None, target_comp_offset: None },
        ),
        (
            106,
            MsgEntry { crc_extra: 138, target_sys_offset: None, target_comp_offset: None },
        ),
        (
            107,
            MsgEntry { crc_extra: 108, target_sys_offset: None, target_comp_offset: None },
        ),
        (
            108,
            MsgEntry { crc_extra: 32, target_sys_offset: None, target_comp_offset: None },
        ),
        (
            109,
            MsgEntry { crc_extra: 185, target_sys_offset: None, target_comp_offset: None },
        ),
        (
            110,
            MsgEntry { crc_extra: 84, target_sys_offset: Some(1), target_comp_offset: Some(2) },
        ),
        (
            111,
            MsgEntry { crc_extra: 34, target_sys_offset: None, target_comp_offset: None },
        ),
        (
            112,
            MsgEntry { crc_extra: 174, target_sys_offset: None, target_comp_offset: None },
        ),
        (
            113,
            MsgEntry { crc_extra: 124, target_sys_offset: None, target_comp_offset: None },
        ),
        (
            114,
            MsgEntry { crc_extra: 237, target_sys_offset: None, target_comp_offset: None },
        ),
        (
            115,
            MsgEntry { crc_extra: 4, target_sys_offset: None, target_comp_offset: None },
        ),
        (
            116,
            MsgEntry { crc_extra: 76, target_sys_offset: None, target_comp_offset: None },
        ),
        (
            117,
            MsgEntry { crc_extra: 128, target_sys_offset: Some(4), target_comp_offset: Some(5) },
        ),
        (
            118,
            MsgEntry { crc_extra: 56, target_sys_offset: None, target_comp_offset: None },
        ),
        (
            119,
            MsgEntry { crc_extra: 116, target_sys_offset: Some(10), target_comp_offset: Some(11) },
        ),
        (
            120,
            MsgEntry { crc_extra: 134, target_sys_offset: None, target_comp_offset: None },
        ),
        (
            121,
            MsgEntry { crc_extra: 237, target_sys_offset: Some(0), target_comp_offset: Some(1) },
        ),
        (
            122,
            MsgEntry { crc_extra: 203, target_sys_offset: Some(0), target_comp_offset: Some(1) },
        ),
        (
            123,
            MsgEntry { crc_extra: 250, target_sys_offset: Some(0), target_comp_offset: Some(1) },
        ),
        (
            124,
            MsgEntry { crc_extra: 87, target_sys_offset: None, target_comp_offset: None },
        ),
        (
            125,
            MsgEntry { crc_extra: 203, target_sys_offset: None, target_comp_offset: None },
        ),
        (
            126,
            MsgEntry { crc_extra: 220, target_sys_offset: Some(79), target_comp_offset: Some(80) },
        ),
        (
            127,
            MsgEntry { crc_extra: 25, target_sys_offset: None, target_comp_offset: None },
        ),
        (
            128,
            MsgEntry { crc_extra: 226, target_sys_offset: None, target_comp_offset: None },
        ),
        (
            129,
            MsgEntry { crc_extra: 46, target_sys_offset: None, target_comp_offset: None },
        ),
        (
            130,
            MsgEntry { crc_extra: 29, target_sys_offset: None, target_comp_offset: None },
        ),
        (
            131,
            MsgEntry { crc_extra: 223, target_sys_offset: None, target_comp_offset: None },
        ),
        (
            132,
            MsgEntry { crc_extra: 85, target_sys_offset: None, target_comp_offset: None },
        ),
        (
            133,
            MsgEntry { crc_extra: 6, target_sys_offset: None, target_comp_offset: None },
        ),
        (
            134,
            MsgEntry { crc_extra: 229, target_sys_offset: None, target_comp_offset: None },
        ),
        (
            135,
            MsgEntry { crc_extra: 203, target_sys_offset: None, target_comp_offset: None },
        ),
        (
            136,
            MsgEntry { crc_extra: 1, target_sys_offset: None, target_comp_offset: None },
        ),
        (
            137,
            MsgEntry { crc_extra: 195, target_sys_offset: None, target_comp_offset: None },
        ),
        (
            138,
            MsgEntry { crc_extra: 109, target_sys_offset: None, target_comp_offset: None },
        ),
        (
            139,
            MsgEntry { crc_extra: 168, target_sys_offset: Some(41), target_comp_offset: Some(42) },
        ),
        (
            140,
            MsgEntry { crc_extra: 181, target_sys_offset: None, target_comp_offset: None },
        ),
        (
            141,
            MsgEntry { crc_extra: 47, target_sys_offset: None, target_comp_offset: None },
        ),
        (
            142,
            MsgEntry { crc_extra: 72, target_sys_offset: None, target_comp_offset: None },
        ),
        (
            143,
            MsgEntry { crc_extra: 131, target_sys_offset: None, target_comp_offset: None },
        ),
        (
            144,
            MsgEntry { crc_extra: 127, target_sys_offset: None, target_comp_offset: None },
        ),
        (
            146,
            MsgEntry { crc_extra: 103, target_sys_offset: None, target_comp_offset: None },
        ),
        (
            147,
            MsgEntry { crc_extra: 154, target_sys_offset: None, target_comp_offset: None },
        ),
        (
            148,
            MsgEntry { crc_extra: 178, target_sys_offset: None, target_comp_offset: None },
        ),
        (
            149,
            MsgEntry { crc_extra: 200, target_sys_offset: None, target_comp_offset: None },
        ),
        (
            150,
            MsgEntry { crc_extra: 134, target_sys_offset: None, target_comp_offset: None },
        ),
        (
            151,
            MsgEntry { crc_extra: 219, target_sys_offset: Some(6), target_comp_offset: Some(7) },
        ),
        (
            152,
            MsgEntry { crc_extra: 208, target_sys_offset: None, target_comp_offset: None },
        ),
        (
            153,
            MsgEntry { crc_extra: 188, target_sys_offset: None, target_comp_offset: None },
        ),
        (
            154,
            MsgEntry { crc_extra: 84, target_sys_offset: Some(6), target_comp_offset: Some(7) },
        ),
        (
            155,
            MsgEntry { crc_extra: 22, target_sys_offset: Some(4), target_comp_offset: Some(5) },
        ),
        (
            156,
            MsgEntry { crc_extra: 19, target_sys_offset: Some(0), target_comp_offset: Some(1) },
        ),
        (
            157,
            MsgEntry { crc_extra: 21, target_sys_offset: Some(12), target_comp_offset: Some(13) },
        ),
        (
            158,
            MsgEntry { crc_extra: 134, target_sys_offset: Some(12), target_comp_offset: Some(13) },
        ),
        (
            160,
            MsgEntry { crc_extra: 78, target_sys_offset: Some(8), target_comp_offset: Some(9) },
        ),
        (
            161,
            MsgEntry { crc_extra: 68, target_sys_offset: Some(0), target_comp_offset: Some(1) },
        ),
        (
            162,
            MsgEntry { crc_extra: 189, target_sys_offset: None, target_comp_offset: None },
        ),
        (
            163,
            MsgEntry { crc_extra: 127, target_sys_offset: None, target_comp_offset: None },
        ),
        (
            164,
            MsgEntry { crc_extra: 154, target_sys_offset: None, target_comp_offset: None },
        ),
        (
            165,
            MsgEntry { crc_extra: 21, target_sys_offset: None, target_comp_offset: None },
        ),
        (
            166,
            MsgEntry { crc_extra: 21, target_sys_offset: None, target_comp_offset: None },
        ),
        (
            167,
            MsgEntry { crc_extra: 144, target_sys_offset: None, target_comp_offset: None },
        ),
        (
            168,
            MsgEntry { crc_extra: 1, target_sys_offset: None, target_comp_offset: None },
        ),
        (
            169,
            MsgEntry { crc_extra: 234, target_sys_offset: None, target_comp_offset: None },
        ),
        (
            170,
            MsgEntry { crc_extra: 73, target_sys_offset: None, target_comp_offset: None },
        ),
        (
            171,
            MsgEntry { crc_extra: 181, target_sys_offset: None, target_comp_offset: None },
        ),
        (
            172,
            MsgEntry { crc_extra: 22, target_sys_offset: None, target_comp_offset: None },
        ),
        (
            173,
            MsgEntry { crc_extra: 83, target_sys_offset: None, target_comp_offset: None },
        ),
        (
            174,
            MsgEntry { crc_extra: 167, target_sys_offset: None, target_comp_offset: None },
        ),
        (
            175,
            MsgEntry { crc_extra: 138, target_sys_offset: Some(14), target_comp_offset: Some(15) },
        ),
        (
            176,
            MsgEntry { crc_extra: 234, target_sys_offset: Some(0), target_comp_offset: Some(1) },
        ),
        (
            177,
            MsgEntry { crc_extra: 240, target_sys_offset: None, target_comp_offset: None },
        ),
        (
            178,
            MsgEntry { crc_extra: 47, target_sys_offset: None, target_comp_offset: None },
        ),
        (
            179,
            MsgEntry { crc_extra: 189, target_sys_offset: Some(26), target_comp_offset: None },
        ),
        (
            180,
            MsgEntry { crc_extra: 52, target_sys_offset: Some(42), target_comp_offset: None },
        ),
        (
            181,
            MsgEntry { crc_extra: 174, target_sys_offset: None, target_comp_offset: None },
        ),
        (
            182,
            MsgEntry { crc_extra: 229, target_sys_offset: None, target_comp_offset: None },
        ),
        (
            183,
            MsgEntry { crc_extra: 85, target_sys_offset: Some(0), target_comp_offset: Some(1) },
        ),
        (
            184,
            MsgEntry { crc_extra: 159, target_sys_offset: Some(4), target_comp_offset: Some(5) },
        ),
        (
            185,
            MsgEntry { crc_extra: 186, target_sys_offset: Some(4), target_comp_offset: Some(5) },
        ),
        (
            186,
            MsgEntry { crc_extra: 72, target_sys_offset: Some(0), target_comp_offset: Some(1) },
        ),
        (
            191,
            MsgEntry { crc_extra: 92, target_sys_offset: None, target_comp_offset: None },
        ),
        (
            192,
            MsgEntry { crc_extra: 36, target_sys_offset: None, target_comp_offset: None },
        ),
        (
            193,
            MsgEntry { crc_extra: 71, target_sys_offset: None, target_comp_offset: None },
        ),
        (
            194,
            MsgEntry { crc_extra: 98, target_sys_offset: None, target_comp_offset: None },
        ),
        (
            195,
            MsgEntry { crc_extra: 120, target_sys_offset: None, target_comp_offset: None },
        ),
        (
            200,
            MsgEntry { crc_extra: 134, target_sys_offset: Some(40), target_comp_offset: Some(41) },
        ),
        (
            201,
            MsgEntry { crc_extra: 205, target_sys_offset: Some(12), target_comp_offset: Some(13) },
        ),
        (
            214,
            MsgEntry { crc_extra: 69, target_sys_offset: Some(6), target_comp_offset: Some(7) },
        ),
        (
            215,
            MsgEntry { crc_extra: 101, target_sys_offset: None, target_comp_offset: None },
        ),
        (
            216,
            MsgEntry { crc_extra: 50, target_sys_offset: Some(0), target_comp_offset: Some(1) },
        ),
        (
            217,
            MsgEntry { crc_extra: 202, target_sys_offset: None, target_comp_offset: None },
        ),
        (
            218,
            MsgEntry { crc_extra: 17, target_sys_offset: Some(0), target_comp_offset: Some(1) },
        ),
        (
            219,
            MsgEntry { crc_extra: 162, target_sys_offset: None, target_comp_offset: None },
        ),
        (
            225,
            MsgEntry { crc_extra: 208, target_sys_offset: None, target_comp_offset: None },
        ),
        (
            226,
            MsgEntry { crc_extra: 207, target_sys_offset: None, target_comp_offset: None },
        ),
        (
            230,
            MsgEntry { crc_extra: 163, target_sys_offset: None, target_comp_offset: None },
        ),
        (
            231,
            MsgEntry { crc_extra: 105, target_sys_offset: None, target_comp_offset: None },
        ),
        (
            232,
            MsgEntry { crc_extra: 151, target_sys_offset: None, target_comp_offset: None },
        ),
        (
            233,
            MsgEntry { crc_extra: 35, target_sys_offset: None, target_comp_offset: None },
        ),
        (
            234,
            MsgEntry { crc_extra: 150, target_sys_offset: None, target_comp_offset: None },
        ),
        (
            235,
            MsgEntry { crc_extra: 179, target_sys_offset: None, target_comp_offset: None },
        ),
        (
            241,
            MsgEntry { crc_extra: 90, target_sys_offset: None, target_comp_offset: None },
        ),
        (
            242,
            MsgEntry { crc_extra: 104, target_sys_offset: None, target_comp_offset: None },
        ),
        (
            243,
            MsgEntry { crc_extra: 85, target_sys_offset: Some(52), target_comp_offset: None },
        ),
        (
            244,
            MsgEntry { crc_extra: 95, target_sys_offset: None, target_comp_offset: None },
        ),
        (
            245,
            MsgEntry { crc_extra: 130, target_sys_offset: None, target_comp_offset: None },
        ),
        (
            246,
            MsgEntry { crc_extra: 184, target_sys_offset: None, target_comp_offset: None },
        ),
        (
            247,
            MsgEntry { crc_extra: 81, target_sys_offset: None, target_comp_offset: None },
        ),
        (
            248,
            MsgEntry { crc_extra: 8, target_sys_offset: Some(3), target_comp_offset: Some(4) },
        ),
        (
            249,
            MsgEntry { crc_extra: 204, target_sys_offset: None, target_comp_offset: None },
        ),
        (
            250,
            MsgEntry { crc_extra: 49, target_sys_offset: None, target_comp_offset: None },
        ),
        (
            251,
            MsgEntry { crc_extra: 170, target_sys_offset: None, target_comp_offset: None },
        ),
        (
            252,
            MsgEntry { crc_extra: 44, target_sys_offset: None, target_comp_offset: None },
        ),
        (
            253,
            MsgEntry { crc_extra: 83, target_sys_offset: None, target_comp_offset: None },
        ),
        (
            254,
            MsgEntry { crc_extra: 46, target_sys_offset: None, target_comp_offset: None },
        ),
        (
            256,
            MsgEntry { crc_extra: 71, target_sys_offset: Some(8), target_comp_offset: Some(9) },
        ),
        (
            257,
            MsgEntry { crc_extra: 131, target_sys_offset: None, target_comp_offset: None },
        ),
        (
            258,
            MsgEntry { crc_extra: 187, target_sys_offset: Some(0), target_comp_offset: Some(1) },
        ),
        (
            259,
            MsgEntry { crc_extra: 92, target_sys_offset: None, target_comp_offset: None },
        ),
        (
            260,
            MsgEntry { crc_extra: 146, target_sys_offset: None, target_comp_offset: None },
        ),
        (
            261,
            MsgEntry { crc_extra: 179, target_sys_offset: None, target_comp_offset: None },
        ),
        (
            262,
            MsgEntry { crc_extra: 12, target_sys_offset: None, target_comp_offset: None },
        ),
        (
            263,
            MsgEntry { crc_extra: 133, target_sys_offset: None, target_comp_offset: None },
        ),
        (
            264,
            MsgEntry { crc_extra: 49, target_sys_offset: None, target_comp_offset: None },
        ),
        (
            265,
            MsgEntry { crc_extra: 26, target_sys_offset: None, target_comp_offset: None },
        ),
        (
            266,
            MsgEntry { crc_extra: 193, target_sys_offset: Some(2), target_comp_offset: Some(3) },
        ),
        (
            267,
            MsgEntry { crc_extra: 35, target_sys_offset: Some(2), target_comp_offset: Some(3) },
        ),
        (
            268,
            MsgEntry { crc_extra: 14, target_sys_offset: Some(2), target_comp_offset: Some(3) },
        ),
        (
            269,
            MsgEntry { crc_extra: 109, target_sys_offset: None, target_comp_offset: None },
        ),
        (
            270,
            MsgEntry { crc_extra: 59, target_sys_offset: None, target_comp_offset: None },
        ),
        (
            271,
            MsgEntry { crc_extra: 22, target_sys_offset: None, target_comp_offset: None },
        ),
        (
            275,
            MsgEntry { crc_extra: 126, target_sys_offset: None, target_comp_offset: None },
        ),
        (
            276,
            MsgEntry { crc_extra: 18, target_sys_offset: None, target_comp_offset: None },
        ),
        (
            277,
            MsgEntry { crc_extra: 62, target_sys_offset: None, target_comp_offset: None },
        ),
        (
            280,
            MsgEntry { crc_extra: 70, target_sys_offset: None, target_comp_offset: None },
        ),
        (
            281,
            MsgEntry { crc_extra: 48, target_sys_offset: None, target_comp_offset: None },
        ),
        (
            282,
            MsgEntry { crc_extra: 123, target_sys_offset: Some(32), target_comp_offset: Some(33) },
        ),
        (
            283,
            MsgEntry { crc_extra: 74, target_sys_offset: None, target_comp_offset: None },
        ),
        (
            284,
            MsgEntry { crc_extra: 99, target_sys_offset: Some(30), target_comp_offset: Some(31) },
        ),
        (
            285,
            MsgEntry { crc_extra: 137, target_sys_offset: Some(38), target_comp_offset: Some(39) },
        ),
        (
            286,
            MsgEntry { crc_extra: 210, target_sys_offset: Some(50), target_comp_offset: Some(51) },
        ),
        (
            287,
            MsgEntry { crc_extra: 1, target_sys_offset: Some(20), target_comp_offset: Some(21) },
        ),
        (
            288,
            MsgEntry { crc_extra: 20, target_sys_offset: Some(20), target_comp_offset: Some(21) },
        ),
        (
            290,
            MsgEntry { crc_extra: 251, target_sys_offset: None, target_comp_offset: None },
        ),
        (
            291,
            MsgEntry { crc_extra: 10, target_sys_offset: None, target_comp_offset: None },
        ),
        (
            299,
            MsgEntry { crc_extra: 19, target_sys_offset: None, target_comp_offset: None },
        ),
        (
            300,
            MsgEntry { crc_extra: 217, target_sys_offset: None, target_comp_offset: None },
        ),
        (
            301,
            MsgEntry { crc_extra: 243, target_sys_offset: None, target_comp_offset: None },
        ),
        (
            310,
            MsgEntry { crc_extra: 28, target_sys_offset: None, target_comp_offset: None },
        ),
        (
            311,
            MsgEntry { crc_extra: 95, target_sys_offset: None, target_comp_offset: None },
        ),
        (
            320,
            MsgEntry { crc_extra: 243, target_sys_offset: Some(2), target_comp_offset: Some(3) },
        ),
        (
            321,
            MsgEntry { crc_extra: 88, target_sys_offset: Some(0), target_comp_offset: Some(1) },
        ),
        (
            322,
            MsgEntry { crc_extra: 243, target_sys_offset: None, target_comp_offset: None },
        ),
        (
            323,
            MsgEntry { crc_extra: 78, target_sys_offset: Some(0), target_comp_offset: Some(1) },
        ),
        (
            324,
            MsgEntry { crc_extra: 132, target_sys_offset: None, target_comp_offset: None },
        ),
        (
            330,
            MsgEntry { crc_extra: 23, target_sys_offset: None, target_comp_offset: None },
        ),
        (
            331,
            MsgEntry { crc_extra: 91, target_sys_offset: None, target_comp_offset: None },
        ),
        (
            332,
            MsgEntry { crc_extra: 236, target_sys_offset: None, target_comp_offset: None },
        ),
        (
            333,
            MsgEntry { crc_extra: 231, target_sys_offset: None, target_comp_offset: None },
        ),
        (
            334,
            MsgEntry { crc_extra: 72, target_sys_offset: None, target_comp_offset: None },
        ),
        (
            335,
            MsgEntry { crc_extra: 225, target_sys_offset: None, target_comp_offset: None },
        ),
        (
            336,
            MsgEntry { crc_extra: 245, target_sys_offset: None, target_comp_offset: None },
        ),
        (
            339,
            MsgEntry { crc_extra: 199, target_sys_offset: None, target_comp_offset: None },
        ),
        (
            340,
            MsgEntry { crc_extra: 99, target_sys_offset: None, target_comp_offset: None },
        ),
        (
            350,
            MsgEntry { crc_extra: 232, target_sys_offset: None, target_comp_offset: None },
        ),
        (
            360,
            MsgEntry { crc_extra: 11, target_sys_offset: None, target_comp_offset: None },
        ),
        (
            370,
            MsgEntry { crc_extra: 75, target_sys_offset: None, target_comp_offset: None },
        ),
        (
            371,
            MsgEntry { crc_extra: 10, target_sys_offset: None, target_comp_offset: None },
        ),
        (
            372,
            MsgEntry { crc_extra: 26, target_sys_offset: None, target_comp_offset: None },
        ),
        (
            373,
            MsgEntry { crc_extra: 117, target_sys_offset: None, target_comp_offset: None },
        ),
        (
            375,
            MsgEntry { crc_extra: 251, target_sys_offset: None, target_comp_offset: None },
        ),
        (
            380,
            MsgEntry { crc_extra: 232, target_sys_offset: None, target_comp_offset: None },
        ),
        (
            385,
            MsgEntry { crc_extra: 147, target_sys_offset: Some(2), target_comp_offset: Some(3) },
        ),
        (
            386,
            MsgEntry { crc_extra: 132, target_sys_offset: Some(4), target_comp_offset: Some(5) },
        ),
        (
            387,
            MsgEntry { crc_extra: 4, target_sys_offset: Some(4), target_comp_offset: Some(5) },
        ),
        (
            388,
            MsgEntry { crc_extra: 8, target_sys_offset: Some(32), target_comp_offset: Some(33) },
        ),
        (
            390,
            MsgEntry { crc_extra: 156, target_sys_offset: None, target_comp_offset: None },
        ),
        (
            395,
            MsgEntry { crc_extra: 0, target_sys_offset: None, target_comp_offset: None },
        ),
        (
            396,
            MsgEntry { crc_extra: 50, target_sys_offset: None, target_comp_offset: None },
        ),
        (
            397,
            MsgEntry { crc_extra: 182, target_sys_offset: None, target_comp_offset: None },
        ),
        (
            400,
            MsgEntry { crc_extra: 110, target_sys_offset: Some(4), target_comp_offset: Some(5) },
        ),
        (
            401,
            MsgEntry { crc_extra: 183, target_sys_offset: Some(4), target_comp_offset: Some(5) },
        ),
        (
            410,
            MsgEntry { crc_extra: 160, target_sys_offset: None, target_comp_offset: None },
        ),
        (
            411,
            MsgEntry { crc_extra: 106, target_sys_offset: None, target_comp_offset: None },
        ),
        (
            412,
            MsgEntry { crc_extra: 33, target_sys_offset: Some(4), target_comp_offset: Some(5) },
        ),
        (
            413,
            MsgEntry { crc_extra: 77, target_sys_offset: Some(4), target_comp_offset: Some(5) },
        ),
        (
            435,
            MsgEntry { crc_extra: 134, target_sys_offset: None, target_comp_offset: None },
        ),
        (
            436,
            MsgEntry { crc_extra: 193, target_sys_offset: None, target_comp_offset: None },
        ),
        (
            437,
            MsgEntry { crc_extra: 30, target_sys_offset: None, target_comp_offset: None },
        ),
        (
            440,
            MsgEntry { crc_extra: 66, target_sys_offset: None, target_comp_offset: None },
        ),
        (
            9000,
            MsgEntry { crc_extra: 113, target_sys_offset: None, target_comp_offset: None },
        ),
        (
            9005,
            MsgEntry { crc_extra: 117, target_sys_offset: None, target_comp_offset: None },
        ),
        (
            10001,
            MsgEntry { crc_extra: 209, target_sys_offset: None, target_comp_offset: None },
        ),
        (
            10002,
            MsgEntry { crc_extra: 186, target_sys_offset: None, target_comp_offset: None },
        ),
        (
            10003,
            MsgEntry { crc_extra: 4, target_sys_offset: None, target_comp_offset: None },
        ),
        (
            10004,
            MsgEntry { crc_extra: 133, target_sys_offset: None, target_comp_offset: None },
        ),
        (
            10005,
            MsgEntry { crc_extra: 103, target_sys_offset: None, target_comp_offset: None },
        ),
        (
            10006,
            MsgEntry { crc_extra: 193, target_sys_offset: None, target_comp_offset: None },
        ),
        (
            10007,
            MsgEntry { crc_extra: 71, target_sys_offset: None, target_comp_offset: None },
        ),
        (
            10008,
            MsgEntry { crc_extra: 240, target_sys_offset: None, target_comp_offset: None },
        ),
        (
            10151,
            MsgEntry { crc_extra: 195, target_sys_offset: None, target_comp_offset: None },
        ),
        (
            11000,
            MsgEntry { crc_extra: 134, target_sys_offset: Some(4), target_comp_offset: Some(5) },
        ),
        (
            11001,
            MsgEntry { crc_extra: 15, target_sys_offset: None, target_comp_offset: None },
        ),
        (
            11002,
            MsgEntry { crc_extra: 234, target_sys_offset: Some(4), target_comp_offset: Some(5) },
        ),
        (
            11003,
            MsgEntry { crc_extra: 64, target_sys_offset: None, target_comp_offset: None },
        ),
        (
            11004,
            MsgEntry { crc_extra: 11, target_sys_offset: Some(8), target_comp_offset: Some(9) },
        ),
        (
            11005,
            MsgEntry { crc_extra: 93, target_sys_offset: None, target_comp_offset: None },
        ),
        (
            11010,
            MsgEntry { crc_extra: 46, target_sys_offset: None, target_comp_offset: None },
        ),
        (
            11011,
            MsgEntry { crc_extra: 106, target_sys_offset: None, target_comp_offset: None },
        ),
        (
            11020,
            MsgEntry { crc_extra: 205, target_sys_offset: None, target_comp_offset: None },
        ),
        (
            11030,
            MsgEntry { crc_extra: 144, target_sys_offset: None, target_comp_offset: None },
        ),
        (
            11031,
            MsgEntry { crc_extra: 133, target_sys_offset: None, target_comp_offset: None },
        ),
        (
            11032,
            MsgEntry { crc_extra: 85, target_sys_offset: None, target_comp_offset: None },
        ),
        (
            11033,
            MsgEntry { crc_extra: 195, target_sys_offset: Some(16), target_comp_offset: Some(17) },
        ),
        (
            11034,
            MsgEntry { crc_extra: 79, target_sys_offset: None, target_comp_offset: None },
        ),
        (
            11035,
            MsgEntry { crc_extra: 128, target_sys_offset: Some(4), target_comp_offset: Some(5) },
        ),
        (
            11036,
            MsgEntry { crc_extra: 177, target_sys_offset: None, target_comp_offset: None },
        ),
        (
            11037,
            MsgEntry { crc_extra: 130, target_sys_offset: None, target_comp_offset: None },
        ),
        (
            11038,
            MsgEntry { crc_extra: 47, target_sys_offset: None, target_comp_offset: None },
        ),
        (
            11039,
            MsgEntry { crc_extra: 142, target_sys_offset: None, target_comp_offset: None },
        ),
        (
            11040,
            MsgEntry { crc_extra: 132, target_sys_offset: None, target_comp_offset: None },
        ),
        (
            11041,
            MsgEntry { crc_extra: 208, target_sys_offset: None, target_comp_offset: None },
        ),
        (
            11042,
            MsgEntry { crc_extra: 201, target_sys_offset: None, target_comp_offset: None },
        ),
        (
            11043,
            MsgEntry { crc_extra: 193, target_sys_offset: None, target_comp_offset: None },
        ),
        (
            11044,
            MsgEntry { crc_extra: 189, target_sys_offset: None, target_comp_offset: None },
        ),
        (
            12900,
            MsgEntry { crc_extra: 114, target_sys_offset: Some(0), target_comp_offset: Some(1) },
        ),
        (
            12901,
            MsgEntry { crc_extra: 254, target_sys_offset: Some(30), target_comp_offset: Some(31) },
        ),
        (
            12902,
            MsgEntry { crc_extra: 140, target_sys_offset: Some(4), target_comp_offset: Some(5) },
        ),
        (
            12903,
            MsgEntry { crc_extra: 249, target_sys_offset: Some(0), target_comp_offset: Some(1) },
        ),
        (
            12904,
            MsgEntry { crc_extra: 77, target_sys_offset: Some(28), target_comp_offset: Some(29) },
        ),
        (
            12905,
            MsgEntry { crc_extra: 49, target_sys_offset: Some(0), target_comp_offset: Some(1) },
        ),
        (
            12915,
            MsgEntry { crc_extra: 94, target_sys_offset: Some(0), target_comp_offset: Some(1) },
        ),
        (
            12918,
            MsgEntry { crc_extra: 139, target_sys_offset: None, target_comp_offset: None },
        ),
        (
            12919,
            MsgEntry { crc_extra: 7, target_sys_offset: Some(16), target_comp_offset: Some(17) },
        ),
        (
            12920,
            MsgEntry { crc_extra: 20, target_sys_offset: None, target_comp_offset: None },
        ),
        (
            42000,
            MsgEntry { crc_extra: 227, target_sys_offset: None, target_comp_offset: None },
        ),
        (
            42001,
            MsgEntry { crc_extra: 239, target_sys_offset: None, target_comp_offset: None },
        ),
        (
            50001,
            MsgEntry { crc_extra: 246, target_sys_offset: None, target_comp_offset: None },
        ),
        (
            50002,
            MsgEntry { crc_extra: 181, target_sys_offset: None, target_comp_offset: None },
        ),
        (
            50003,
            MsgEntry { crc_extra: 62, target_sys_offset: None, target_comp_offset: None },
        ),
        (
            50004,
            MsgEntry { crc_extra: 240, target_sys_offset: Some(8), target_comp_offset: Some(9) },
        ),
        (
            50005,
            MsgEntry { crc_extra: 152, target_sys_offset: Some(4), target_comp_offset: Some(5) },
        ),
        (
            52000,
            MsgEntry { crc_extra: 13, target_sys_offset: None, target_comp_offset: None },
        ),
        (
            52001,
            MsgEntry { crc_extra: 239, target_sys_offset: None, target_comp_offset: None },
        ),
        (
            52002,
            MsgEntry { crc_extra: 24, target_sys_offset: None, target_comp_offset: None },
        ),
        (
            52003,
            MsgEntry { crc_extra: 166, target_sys_offset: None, target_comp_offset: None },
        ),
        (
            52004,
            MsgEntry { crc_extra: 39, target_sys_offset: None, target_comp_offset: None },
        ),
        (
            52005,
            MsgEntry { crc_extra: 145, target_sys_offset: None, target_comp_offset: None },
        ),
    ];
    reveal(table_spec);
    assert(r@ =~= table_spec());
    r
}

/// Each row's id is below the next row's.
proof fn lemma_rows_ascend(i: int)
    requires
        0 <= i < table_spec().len() - 1,
    ensures
        table_spec()[i].0 < table_spec()[i + 1].0,
{
    reveal(table_spec);
    assert(table_spec().len() == 323);
}

/// The ids of the table ascend, so no id occurs twice.
pub proof fn law_table_sorted(i: int, j: int)
    requires
        0 <= i < j < table_spec().len(),
    ensures
        table_spec()[i].0 < table_spec()[j].0,
    decreases j - i,
{
    if i + 1 == j {
        lemma_rows_ascend(i);
    } else {
        law_table_sorted(i, j - 1);
        lemma_rows_ascend(j - 1);
    }
}

/// The entry that a table holds for `msgid`.
pub open spec fn entry_in(table: Seq<(u32, MsgEntry)>, msgid: u32) -> Option<MsgEntry> {
    if exists|i: int| 0 <= i < table.len() && (#[trigger] table[i]).0 == msgid {
        Some(table[choose|i: int| 0 <= i < table.len() && (#[trigger] table[i]).0 == msgid].1)
    } else {
        None
    }
}

/// What the router knows of message `msgid`.
pub open spec fn lookup_spec(msgid: u32) -> Option<MsgEntry> {
    entry_in(table_spec(), msgid)
}

/// Find `msgid` in a table of ascending ids by binary search.
pub fn lookup_in(table: &[(u32, MsgEntry)], msgid: u32) -> (r: Option<MsgEntry>)
    requires
        forall|i: int, j: int| 0 <= i < j < table@.len() ==> table@[i].0 < table@[j].0,
    ensures
        r == entry_in(table@, msgid),
{
    let mut lo: usize = 0;
    let mut hi: usize = table.len();
    while lo < hi
        invariant
            lo <= hi <= table@.len(),
            forall|i: int, j: int| 0 <= i < j < table@.len() ==> table@[i].0 < table@[j].0,
            forall|i: int| 0 <= i < lo ==> (#[trigger] table@[i]).0 < msgid,
            forall|i: int| hi <= i < table@.len() ==> (#[trigger] table@[i]).0 > msgid,
        decreases hi - lo,
    {
        let mid: usize = lo + (hi - lo) / 2;
        let id: u32 = table[mid].0;
        if id == msgid {
            assert(table@[mid as int].0 == msgid);
            return Some(table[mid].1);
        }
        if id < msgid {
            lo = mid + 1;
        } else {
            hi = mid;
        }
    }
    None
}

/// What the router knows of message `msgid`; `None` for a message outside the table.
pub fn lookup(msgid: u32) -> (r: Option<MsgEntry>)
    ensures
        r == lookup_spec(msgid),
{
    let table = sorted();
    proof {
        assert forall|i: int, j: int| 0 <= i < j < table@.len() implies table@[i].0
            < table@[j].0 by {
            law_table_sorted(i, j);
        }
    }
    lookup_in(table, msgid)
}

/// In a table of ascending ids every row is found under its id, and an id without a row is
/// not found.
pub proof fn law_rows_are_found(table: Seq<(u32, MsgEntry)>, msgid: u32)
    requires
        forall|i: int, j: int| 0 <= i < j < table.len() ==> table[i].0 < table[j].0,
    ensures
        forall|i: int|
            0 <= i < table.len() && (#[trigger] table[i]).0 == msgid ==> entry_in(table, msgid)
                == Some(table[i].1),
        entry_in(table, msgid) is None <==> forall|i: int|
            0 <= i < table.len() ==> (#[trigger] table[i]).0 != msgid,
{
}

} // verus!
