use seqhash::parser::{lookup, rc_lookup, SliceExt, LOOKUP_TABLE, RC_LOOKUP_TABLE};

#[test]
fn lookup_maps_the_four_bases() {
    assert_eq!(lookup(b'A'), 1);
    assert_eq!(lookup(b'C'), 2);
    assert_eq!(lookup(b'G'), 3);
    assert_eq!(lookup(b'T'), 4);
    assert_eq!(lookup(b'a'), 1);
    assert_eq!(lookup(b'c'), 2);
    assert_eq!(lookup(b'g'), 3);
    assert_eq!(lookup(b't'), 4);
}

#[test]
fn lookup_maps_every_other_byte_to_zero() {
    for x in 0..=255u8 {
        let expected = match x {
            b'A' | b'a' => 1,
            b'C' | b'c' => 2,
            b'G' | b'g' => 3,
            b'T' | b't' => 4,
            _ => 0,
        };
        assert_eq!(lookup(x), expected);
        assert_eq!(LOOKUP_TABLE[x as usize], expected);
    }
    assert_eq!(lookup(b'N'), 0);
    assert_eq!(lookup(b'U'), 0);
    assert_eq!(lookup(b'0'), 0);
    assert_eq!(lookup(b'-'), 0);
}

#[test]
fn rc_lookup_maps_each_base_to_its_complement() {
    assert_eq!(rc_lookup(b'A'), 4);
    assert_eq!(rc_lookup(b'C'), 3);
    assert_eq!(rc_lookup(b'G'), 2);
    assert_eq!(rc_lookup(b'T'), 1);
    assert_eq!(rc_lookup(b'a'), 4);
    assert_eq!(rc_lookup(b'c'), 3);
    assert_eq!(rc_lookup(b'g'), 2);
    assert_eq!(rc_lookup(b't'), 1);
    assert_eq!(rc_lookup(b'N'), 0);
}

#[test]
fn rc_lookup_is_the_complement_of_lookup_on_every_byte() {
    for x in 0..=255u8 {
        let code = lookup(x);
        let expected = if code == 0 { 0 } else { 5 - code };
        assert_eq!(rc_lookup(x), expected);
        assert_eq!(RC_LOOKUP_TABLE[x as usize], expected);
    }
}

#[test]
fn trim_drops_whitespace_at_both_ends() {
    assert_eq!(b"  ACGT\n".trim(), b"ACGT");
    assert_eq!(b"\t\r\n\x0c ACGT \x0c\n\r\t".trim(), b"ACGT");
    assert_eq!(b"ACGT".trim(), b"ACGT");
    assert_eq!(b"A".trim(), b"A");
    assert_eq!(b" A".trim(), b"A");
    assert_eq!(b"A ".trim(), b"A");
}

#[test]
fn trim_keeps_whitespace_inside() {
    assert_eq!(b" AC GT ".trim(), b"AC GT");
    assert_eq!(b"AC\nGT\n".trim(), b"AC\nGT");
}

#[test]
fn trim_of_nothing_but_whitespace_is_empty() {
    assert_eq!(b"".trim(), b"");
    assert_eq!(b" ".trim(), b"");
    assert_eq!(b" \t\r\n\x0c".trim(), b"");
}

#[test]
fn trim_knows_ascii_whitespace_only() {
    assert_eq!(b"\x0bA\x0b".trim(), b"\x0bA\x0b");
    assert_eq!(b"\x00A\x00".trim(), b"\x00A\x00");
    assert_eq!(b"\xa0A".trim(), b"\xa0A");
}

#[test]
fn trim_agrees_with_the_standard_library() {
    let inputs: Vec<&[u8]> = vec![b"", b" ", b"  x  ", b"\n\nACGT\r\n", b"a b", b"\x0c\x0c"];
    for input in inputs {
        assert_eq!(input.trim(), input.trim_ascii());
    }
}

#[test]
fn trim_twice_is_trim_once() {
    let input: &[u8] = b" \t ACGT NNN \r\n";
    assert_eq!(input.trim().trim(), input.trim());
}
