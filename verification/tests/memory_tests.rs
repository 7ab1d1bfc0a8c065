use scalar_frontend::Dtcm;
use scalar_frontend::Itcm;
use scalar_frontend::Poll;
use scalar_frontend::RawInstruction;

#[test]
fn latency_three_read_is_ready_on_third_poll() {
    let words: Vec<u32> = vec![0xAAAA0001, 0xBBBB0002, 0xCCCC0003];
    let itcm = Itcm::from_words(&words, 3);
    let mut rd = itcm.read(4);
    // Exactly N - 1 = 2 polls report not-ready.
    assert!(matches!(rd.poll(&itcm), Poll::Pending));
    assert!(matches!(rd.poll(&itcm), Poll::Pending));
    // The Nth poll yields the exact preloaded word at the address's index.
    match rd.poll(&itcm) {
        Poll::Ready(w) => assert_eq!(w.data, 0xBBBB0002),
        Poll::Pending => panic!("read must be ready on the third poll"),
    }
}

#[test]
fn latency_one_read_is_ready_on_first_poll() {
    let words: Vec<u32> = vec![0x12345678];
    let itcm = Itcm::from_words(&words, 1);
    let mut rd = itcm.read(0);
    match rd.poll(&itcm) {
        Poll::Ready(w) => assert_eq!(w.data, 0x12345678),
        Poll::Pending => panic!("latency 1 must yield data on the very first poll"),
    }
}

#[test]
fn out_of_range_addresses_alias_by_wrapping() {
    let words: Vec<u32> = vec![0xDEAD0001, 0xDEAD0002];
    let itcm = Itcm::from_words(&words, 1);
    // Word index 2048 wraps to index 0.
    let mut rd = itcm.read(4 * 2048);
    match rd.poll(&itcm) {
        Poll::Ready(w) => assert_eq!(w.data, 0xDEAD0001),
        Poll::Pending => panic!("latency 1 must yield data on the very first poll"),
    }
}

#[test]
fn preloaded_program_first_word() {
    let itcm = Itcm::new(1);
    let mut rd = itcm.read(0);
    match rd.poll(&itcm) {
        Poll::Ready(w) => assert_eq!(w.data, 0x002082B3),
        Poll::Pending => panic!("latency 1 must yield data on the very first poll"),
    }
}

#[test]
fn padding_words_are_zero() {
    let words: Vec<u32> = vec![0x11111111];
    let itcm = Itcm::from_words(&words, 1);
    let mut rd = itcm.read(8);
    match rd.poll(&itcm) {
        Poll::Ready(w) => assert_eq!(w.data, 0),
        Poll::Pending => panic!("latency 1 must yield data on the very first poll"),
    }
}

#[test]
fn dtcm_constructs() {
    let _d = Dtcm::new(2);
    let _ = RawInstruction { data: 0 };
}
