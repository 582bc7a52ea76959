use host_status::number::{parse_decimal, Decimal};
use host_status::ping::parse_ping_ms;
use host_status::speedtest::parse_speedtest;
use host_status::thermal::{
    parse_sensors, parse_temp_line, reading_slot, scan_sensor_lines, SensorLine, Slot, TempData,
};

fn dec(negative: bool, mantissa: u128, scale: usize) -> Decimal {
    Decimal { negative, mantissa, scale }
}

fn chars(s: &str) -> Vec<char> {
    s.chars().collect()
}

#[test]
fn decimal_plain_and_signed() {
    assert_eq!(parse_decimal(&chars("13.4")), Some(dec(false, 134, 1)));
    assert_eq!(parse_decimal(&chars("+45.0")), Some(dec(false, 450, 1)));
    assert_eq!(parse_decimal(&chars("-3")), Some(dec(true, 3, 0)));
    assert_eq!(parse_decimal(&chars(".5")), Some(dec(false, 5, 1)));
    assert_eq!(parse_decimal(&chars("5.")), Some(dec(false, 5, 0)));
    assert_eq!(parse_decimal(&chars("007.250")), Some(dec(false, 7250, 3)));
}

#[test]
fn decimal_rejects_malformed_text() {
    assert_eq!(parse_decimal(&chars("")), None);
    assert_eq!(parse_decimal(&chars(".")), None);
    assert_eq!(parse_decimal(&chars("-")), None);
    assert_eq!(parse_decimal(&chars("1.2.3")), None);
    assert_eq!(parse_decimal(&chars("12ms")), None);
    assert_eq!(parse_decimal(&chars("N/A")), None);
    assert_eq!(parse_decimal(&chars("+-1")), None);
}

#[test]
fn decimal_rejects_too_many_digits() {
    assert_eq!(
        parse_decimal(&chars("340282366920938463463374607431768211455")),
        Some(dec(false, u128::MAX, 0))
    );
    assert_eq!(parse_decimal(&chars("340282366920938463463374607431768211456")), None);
}

#[test]
fn ping_reads_time_field() {
    let out = "64 bytes from 8.8.8.8: icmp_seq=1 ttl=55 time=13.4 ms";
    assert_eq!(parse_ping_ms(out), Some(dec(false, 134, 1)));
}

#[test]
fn ping_reads_first_matching_line_of_full_output() {
    let out = "PING 8.8.8.8 (8.8.8.8) 56(84) bytes of data.\n\
               64 bytes from 8.8.8.8: icmp_seq=1 ttl=117 time=9.87 ms\n\
               \n\
               --- 8.8.8.8 ping statistics ---\n\
               1 packets transmitted, 1 received, 0% packet loss, time 0ms\n";
    assert_eq!(parse_ping_ms(out), Some(dec(false, 987, 2)));
}

#[test]
fn ping_without_time_is_absent() {
    assert_eq!(parse_ping_ms(""), None);
    assert_eq!(parse_ping_ms("ping: connect: Network is unreachable\n"), None);
    assert_eq!(parse_ping_ms("time=abc ms\ntime=5 ms"), None);
}

#[test]
fn ping_value_at_end_of_line() {
    assert_eq!(parse_ping_ms("reply time=21\r\n"), Some(dec(false, 21, 0)));
}

#[test]
fn speedtest_download_only_is_absent() {
    assert_eq!(parse_speedtest("Download: 93.12 Mbit/s"), None);
}

#[test]
fn speedtest_reads_both_rates() {
    let out = "Ping: 12.345 ms\nDownload: 93.12 Mbit/s\nUpload: 10.5 Mbit/s\n";
    assert_eq!(parse_speedtest(out), Some((dec(false, 9312, 2), dec(false, 105, 1))));
}

#[test]
fn speedtest_upload_only_is_absent() {
    assert_eq!(parse_speedtest("Upload: 10.5 Mbit/s\n"), None);
}

#[test]
fn speedtest_unreadable_rate_is_absent() {
    assert_eq!(parse_speedtest("Download: fast Mbit/s\nUpload: 10.5 Mbit/s\n"), None);
}

#[test]
fn speedtest_rate_line_without_value_voids_scan() {
    let out = "Download:\nDownload: 93.12 Mbit/s\nUpload: 10.5 Mbit/s\n";
    assert_eq!(parse_speedtest(out), None);
}

#[test]
fn speedtest_later_line_replaces_earlier() {
    let out = "Download: 1 Mbit/s\nUpload: 2 Mbit/s\nDownload: 3 Mbit/s\n";
    assert_eq!(parse_speedtest(out), Some((dec(false, 3, 0), dec(false, 2, 0))));
}

#[test]
fn temp_line_reads_celsius_word() {
    assert_eq!(parse_temp_line("temp1:       +45.0°C"), Some(dec(false, 450, 1)));
    assert_eq!(
        parse_temp_line("  edge:         +52.0°C  (crit = +100.0°C, hyst = -273.1°C)"),
        Some(dec(false, 520, 1))
    );
    assert_eq!(parse_temp_line("temp2:        -5.5°C"), Some(dec(true, 55, 1)));
}

#[test]
fn temp_line_without_reading_is_absent() {
    assert_eq!(parse_temp_line("temp1:        N/A"), None);
    assert_eq!(parse_temp_line("fan1:        1200 RPM"), None);
    assert_eq!(parse_temp_line(""), None);
}

#[test]
fn cpu_temp_from_k10temp_chip() {
    let out = "k10temp-pci-00c3\nAdapter: PCI adapter\ntemp1:       +45.0°C\n";
    let t = parse_sensors(out);
    assert_eq!(t.cpu_temp, Some(dec(false, 450, 1)));
    assert_eq!(t.motherboard_temp, None);
    assert_eq!(t.gpu_temp, None);
}

#[test]
fn all_three_readings_from_full_report() {
    let out = "asus-isa-0000\n\
               Adapter: ISA adapter\n\
               temp1:        +30.0°C\n\
               \n\
               k10temp-pci-00c3\n\
               Adapter: PCI adapter\n\
               Tctl:         +47.1°C\n\
               temp1:        +46.5°C\n\
               \n\
               amdgpu-pci-0800\n\
               Adapter: PCI adapter\n\
               vddgfx:      906.00 mV\n\
               edge:         +52.0°C  (crit = +100.0°C, hyst = -273.1°C)\n";
    let t = parse_sensors(out);
    assert_eq!(
        t,
        TempData {
            motherboard_temp: Some(dec(false, 300, 1)),
            cpu_temp: Some(dec(false, 465, 1)),
            gpu_temp: Some(dec(false, 520, 1)),
        }
    );
}

#[test]
fn acpitz_chip_gives_motherboard_reading() {
    let out = "acpitz-acpi-0\nAdapter: ACPI interface\ntemp1:        +27.8°C  (crit = +105.0°C)\n";
    assert_eq!(parse_sensors(out).motherboard_temp, Some(dec(false, 278, 1)));
}

#[test]
fn chip_names_compare_in_lower_case() {
    let out = "\u{212A}10TEMP-pci-00c3\n  TEMP1:   +40.0°C\n";
    assert_eq!(parse_sensors(out).cpu_temp, Some(dec(false, 400, 1)));
}

#[test]
fn lines_before_any_chip_are_ignored() {
    let out = "  temp1:   +40.0°C\n";
    assert_eq!(parse_sensors(out), TempData { motherboard_temp: None, cpu_temp: None, gpu_temp: None });
}

#[test]
fn unreadable_later_line_clears_reading() {
    let out = "k10temp-pci-00c3\ntemp1:   +40.0°C\ntemp1:   N/A\n";
    assert_eq!(parse_sensors(out).cpu_temp, None);
}

#[test]
fn empty_report_has_no_readings() {
    assert_eq!(parse_sensors(""), TempData { motherboard_temp: None, cpu_temp: None, gpu_temp: None });
}

#[test]
fn reading_slot_follows_chip_and_label() {
    assert_eq!(reading_slot("k10temp-pci-00c3", "temp1:   +45.0°c"), Some(Slot::Cpu));
    assert_eq!(reading_slot("asus-k10temp", "temp1:"), Some(Slot::Motherboard));
    assert_eq!(reading_slot("acpitz-acpi-0", "temp1:"), Some(Slot::Motherboard));
    assert_eq!(reading_slot("amdgpu-pci-0800", "edge:  +52.0°c"), Some(Slot::Gpu));
    assert_eq!(reading_slot("amdgpu-pci-0800", "temp1:  +52.0°c"), None);
    assert_eq!(reading_slot("k10temp-pci-00c3", "tctl:  +45.0°c"), None);
    assert_eq!(reading_slot("nvme-pci-0100", "temp1:  +35.0°c"), None);
}

#[test]
fn tab_indented_line_opens_no_chip() {
    let out = "k10temp-pci-00c3\n\tfan\n  temp1: +45.0°C\n";
    assert_eq!(parse_sensors(out).cpu_temp, Some(dec(false, 450, 1)));
}

#[test]
fn reading_comes_from_unindented_chip_only() {
    let out = "nvme-pci-0100\n\tk10temp\n temp1: +5°C\n";
    assert_eq!(parse_sensors(out).cpu_temp, None);
}

#[test]
fn decimal_with_exponent() {
    assert_eq!(parse_decimal(&chars("1e3")), Some(dec(false, 1000, 0)));
    assert_eq!(parse_decimal(&chars("1.5e2")), Some(dec(false, 150, 0)));
    assert_eq!(parse_decimal(&chars("1.25E1")), Some(dec(false, 125, 1)));
    assert_eq!(parse_decimal(&chars("2.5e-3")), Some(dec(false, 25, 4)));
    assert_eq!(parse_decimal(&chars("-4E+2")), Some(dec(true, 400, 0)));
    assert_eq!(parse_decimal(&chars("0e99999")), Some(dec(false, 0, 0)));
}

#[test]
fn decimal_rejects_malformed_exponent() {
    assert_eq!(parse_decimal(&chars("1e")), None);
    assert_eq!(parse_decimal(&chars("e5")), None);
    assert_eq!(parse_decimal(&chars("1e2.5")), None);
    assert_eq!(parse_decimal(&chars("1e+")), None);
}

#[test]
fn decimal_out_of_range_exponent_is_absent() {
    assert_eq!(parse_decimal(&chars("1e38")), Some(dec(false, 10u128.pow(38), 0)));
    assert_eq!(parse_decimal(&chars("1e40")), None);
}

#[test]
fn exponent_forms_in_tool_output() {
    assert_eq!(parse_ping_ms("64 bytes: time=1e1 ms"), Some(dec(false, 10, 0)));
    assert_eq!(parse_temp_line("temp1:   +1e2°C"), Some(dec(false, 100, 0)));
    assert_eq!(
        parse_speedtest("Download: 9.3e1 Mbit/s\nUpload: 1E1 Mbit/s\n"),
        Some((dec(false, 93, 0), dec(false, 10, 0)))
    );
}

fn sensor_line(text: &str, lower: &str, lower_trimmed: &str) -> SensorLine {
    SensorLine { text: chars(text), lower: chars(lower), lower_trimmed: chars(lower_trimmed) }
}

#[test]
fn scan_uses_given_lower_case_forms() {
    let ls = vec![
        sensor_line("K10TEMP-pci-00c3", "k10temp-pci-00c3", "k10temp-pci-00c3"),
        sensor_line("\tfan", "\tfan", "fan"),
        sensor_line("  TEMP1: +45.0°C", "  temp1: +45.0°c", "temp1: +45.0°c"),
    ];
    assert_eq!(scan_sensor_lines(&ls).cpu_temp, Some(dec(false, 450, 1)));
}

#[test]
fn scan_takes_chip_from_unindented_line_only() {
    let ls = vec![
        sensor_line("nvme-pci-0100", "nvme-pci-0100", "nvme-pci-0100"),
        sensor_line("\tk10temp", "\tk10temp", "k10temp"),
        sensor_line(" temp1: +5°C", " temp1: +5°c", "temp1: +5°c"),
    ];
    assert_eq!(
        scan_sensor_lines(&ls),
        TempData { motherboard_temp: None, cpu_temp: None, gpu_temp: None }
    );
}

#[test]
fn scan_of_no_lines_has_no_readings() {
    assert_eq!(
        scan_sensor_lines(&Vec::new()),
        TempData { motherboard_temp: None, cpu_temp: None, gpu_temp: None }
    );
}
