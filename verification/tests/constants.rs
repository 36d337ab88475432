use hazmat::io::{S_IFBLK, S_IFMT, S_IFREG};
use hazmat::prompt::{SIGINT, SIGTERM};
use hazmat::shadow::{EINVAL, EIO};

#[test]
fn constants_are_those_of_the_system() {
    assert_eq!(S_IFMT, libc::S_IFMT);
    assert_eq!(S_IFBLK, libc::S_IFBLK);
    assert_eq!(S_IFREG, libc::S_IFREG);
    assert_eq!(EIO, libc::EIO);
    assert_eq!(EINVAL, libc::EINVAL);
    assert_eq!(SIGTERM, signal_hook::consts::SIGTERM);
    assert_eq!(SIGINT, signal_hook::consts::SIGINT);
}
