use rlog::Logger;

const TESTLOG: &str = "test.log";
const FORMAT: &str = "%d-%m-%Y %a %H:%M";

#[test]
fn tests_instantiate() {
    let log = Logger::new(TESTLOG, FORMAT);
    assert_eq!(log.get_fmt(), FORMAT);
    assert_eq!(log.get_path(), TESTLOG);
}

#[test]
fn test_get_fmt() {
    let log = Logger::new("get_fmt.log", FORMAT);

    assert_eq!(FORMAT, log.get_fmt());
}

#[test]
fn test_get_path() {
    let log = Logger::new("get_path.log", FORMAT);

    assert_eq!("get_path.log", log.get_path());
}
