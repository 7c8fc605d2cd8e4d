use vstat_pipe::number::parse_int;

#[test]
fn integers_read_as_std_reads_them() {
    let cases: [&str; 12] = ["0", "42", "+7", "-7", "-", "+", "", "1a", "9223372036854775807",
        "9223372036854775808", "-9223372036854775808", "-9223372036854775809"];
    for c in cases.iter() {
        assert_eq!(parse_int(c.as_bytes()), c.parse::<i64>().ok(), "{}", c);
    }
    assert_eq!(parse_int(b"00012"), Some(12));
}
