use kenkoterminal::telnet::{escape_iac, TelnetFilter, DO, DONT, IAC, SB, SE, WILL, WONT};

#[test]
fn strips_iac_and_replies_refuse() {
    let mut f = TelnetFilter::default();
    let mut replies = Vec::new();
    // "hi" + IAC WILL ECHO(1) + "!" + IAC IAC (literal 0xFF)
    let input = [b'h', b'i', IAC, WILL, 1, b'!', IAC, IAC];
    let data = f.feed(&input, &mut replies);
    assert_eq!(data, vec![b'h', b'i', b'!', 0xFF]);
    assert_eq!(replies, vec![IAC, DONT, 1]); // refused the WILL ECHO
}

#[test]
fn subnegotiation_is_skipped() {
    let mut f = TelnetFilter::default();
    let mut replies = Vec::new();
    let input = [b'a', IAC, SB, 24, b'x', b'y', IAC, SE, b'b'];
    let data = f.feed(&input, &mut replies);
    assert_eq!(data, vec![b'a', b'b']);
    assert!(replies.is_empty());
}

#[test]
fn do_is_answered_wont_and_wont_needs_no_reply() {
    let mut f = TelnetFilter::default();
    let mut replies = vec![9u8];
    let data = f.feed(&[IAC, DO, 31, IAC, WONT, 3, IAC, DONT, 5, b'z'], &mut replies);
    assert_eq!(data, vec![b'z']);
    assert_eq!(replies, vec![9u8, IAC, WONT, 31]);
}

#[test]
fn feeding_in_chunks_matches_feeding_at_once() {
    let input = [b'a', IAC, WILL, 1, IAC, SB, 24, IAC, SE, IAC, IAC, b'b', IAC, DO, 3];
    let mut whole = TelnetFilter::default();
    let mut r_whole = Vec::new();
    let d_whole = whole.feed(&input, &mut r_whole);
    for cut in 0..=input.len() {
        let mut f = TelnetFilter::default();
        let mut r = Vec::new();
        let mut d = f.feed(&input[..cut], &mut r);
        d.extend(f.feed(&input[cut..], &mut r));
        assert_eq!(d, d_whole, "cut at {}", cut);
        assert_eq!(r, r_whole, "cut at {}", cut);
    }
}

#[test]
fn escape_doubles_iac_and_round_trips() {
    let data = [1u8, IAC, 2, IAC, IAC];
    let esc = escape_iac(&data);
    assert_eq!(esc, vec![1, IAC, IAC, 2, IAC, IAC, IAC, IAC]);
    let mut f = TelnetFilter::default();
    let mut replies = Vec::new();
    assert_eq!(f.feed(&esc, &mut replies), data.to_vec());
    assert!(replies.is_empty());
}

#[test]
fn replies_come_in_triples_and_data_is_a_subsequence() {
    let input = [b'x', IAC, WILL, 1, IAC, DO, 24, IAC, WONT, 3, IAC, SB, IAC, WILL, 9, IAC, SE, b'y'];
    let mut f = TelnetFilter::default();
    let mut replies = vec![7u8];
    let data = f.feed(&input, &mut replies);
    assert_eq!(replies, vec![7u8, IAC, DONT, 1, IAC, WONT, 24]);
    assert_eq!((replies.len() - 1) % 3, 0);
    assert_eq!(data, vec![b'x', b'y']);
}
