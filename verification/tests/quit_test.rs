use quire::platform::quit::{
    answer_line, is_quit_request, read_answer, retry_open, ERROR_FILE_NOT_FOUND, ERROR_PIPE_BUSY,
    QUIT_REQUEST,
};

#[test]
fn the_request_line_is_a_quit_request_and_the_answers_read_back() {
    assert!(is_quit_request(QUIT_REQUEST));
    assert!(is_quit_request("  quit \r\n"));
    assert!(!is_quit_request("quit now\n"));
    assert!(!is_quit_request("QUIT\n"));
    assert!(!is_quit_request(""));
    assert_eq!(read_answer(answer_line(true)), Ok(()));
    assert_eq!(
        read_answer(answer_line(false)),
        Err("the instance refused the request: it could not schedule its exit".to_string())
    );
}

#[test]
fn a_silent_or_foreign_answer_is_named() {
    assert_eq!(
        read_answer(""),
        Err("the instance closed the channel without answering".to_string())
    );
    assert_eq!(
        read_answer("  \n"),
        Err("the instance closed the channel without answering".to_string())
    );
    assert_eq!(
        read_answer("HTTP/1.1 400\n"),
        Err("the channel answered 'HTTP/1.1 400', which is not Quire".to_string())
    );
}

#[test]
fn only_a_busy_or_absent_pipe_is_worth_another_try() {
    assert!(retry_open(Some(ERROR_PIPE_BUSY)));
    assert!(retry_open(Some(ERROR_FILE_NOT_FOUND)));
    assert!(!retry_open(Some(5)));
    assert!(!retry_open(None));
}
