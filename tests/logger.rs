use rlog::Logger;

const TESTLOG: &str = "test.log";
const FORMAT: &str = "$date $timeshort $msg";

#[test]
fn logger_instantiate() {
    let log = Logger::new(TESTLOG, FORMAT);
    assert_eq!(log.get_fmt(), FORMAT);
    assert_eq!(log.get_path(), TESTLOG);
}
