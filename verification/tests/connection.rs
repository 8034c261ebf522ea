use openssl::error::ErrorStack;
use openssl::rsa::Rsa;
use udps::connection::{Connection, ConnectionState, CryptState, DEFAULT_MAX_PACKAGE_BACKLOG};
use udps::error::ErrorKind;
use udps::package::Package;

fn open_connection() -> Connection {
    let mut connection = Connection::new(&"127.0.0.1:40002".to_string(), &7);
    connection.set_state(ConnectionState::Connected);
    connection
}

fn data(package_id: u32, payload: &[u8]) -> Package {
    let mut package = Package::with_ids(7, package_id);
    package.data = payload.to_vec();
    package
}

#[test]
fn new_connection_is_closed_and_empty() {
    let connection = Connection::new(&"10.0.0.1:9".to_string(), &5);
    assert_eq!(connection.id, 5);
    assert_eq!(connection.address, "10.0.0.1:9");
    assert_eq!(connection.get_state(), ConnectionState::Disconnected);
    assert_eq!(connection.crypt_state, CryptState::Plain);
    assert_eq!(connection.ping, None);
    assert!(connection.public_key.is_none());
    assert!(connection.secret_key.is_none());
    assert!(connection.package_journal.is_empty());
    assert!(connection.package_list.is_empty());
    assert_eq!(connection.max_package_backlog, 32);
    assert_eq!(DEFAULT_MAX_PACKAGE_BACKLOG, 32);
    assert_eq!(connection.dropped_packages, 0);
}

#[test]
fn state_is_set_and_read() {
    let mut connection = Connection::new(&"a".to_string(), &1);
    connection.set_state(ConnectionState::Connected);
    assert_eq!(connection.get_state(), ConnectionState::Connected);
    connection.set_state(ConnectionState::Disconnected);
    assert_eq!(connection.get_state(), ConnectionState::Disconnected);
}

#[test]
fn packages_are_queued_in_the_order_they_came() {
    let mut connection = open_connection();
    connection.push_package(data(3, &[3]));
    connection.push_package(data(1, &[1]));
    connection.push_package(data(2, &[2]));
    assert_eq!(
        connection.collect_packages(),
        vec![data(3, &[3]), data(1, &[1]), data(2, &[2])]
    );
}

#[test]
fn duplicate_is_dropped() {
    let mut connection = open_connection();
    connection.push_package(data(1, &[0xaa]));
    connection.push_package(data(1, &[0xbb]));
    assert_eq!(connection.dropped_packages, 0);
    assert_eq!(connection.collect_packages(), vec![data(1, &[0xaa])]);
}

#[test]
fn duplicate_does_not_disturb_the_order_of_the_others() {
    let mut connection = open_connection();
    connection.push_package(data(1, &[1]));
    connection.push_package(data(2, &[2]));
    connection.push_package(data(1, &[1]));
    connection.push_package(data(3, &[3]));
    connection.push_package(data(2, &[2]));
    assert_eq!(
        connection.collect_packages(),
        vec![data(1, &[1]), data(2, &[2]), data(3, &[3])]
    );
}

#[test]
fn closed_connection_takes_nothing() {
    let mut connection = Connection::new(&"a".to_string(), &7);
    connection.push_package(data(1, &[1]));
    assert!(connection.package_list.is_empty());
    assert!(connection.package_journal.is_empty());
    assert_eq!(connection.dropped_packages, 0);
}

#[test]
fn closed_connection_keeps_what_was_queued() {
    let mut connection = open_connection();
    connection.push_package(data(1, &[1]));
    connection.set_state(ConnectionState::Disconnected);
    connection.push_package(data(2, &[2]));
    assert_eq!(connection.collect_packages(), vec![data(1, &[1])]);
}

#[test]
fn full_queue_drops_and_counts() {
    let mut connection = open_connection().with_backlog(2);
    connection.push_package(data(1, &[1]));
    connection.push_package(data(2, &[2]));
    connection.push_package(data(3, &[3]));
    connection.push_package(data(4, &[4]));
    assert_eq!(connection.dropped_packages, 2);
    assert!(!connection.package_journal.contains(&3));
    assert_eq!(
        connection.collect_packages(),
        vec![data(1, &[1]), data(2, &[2])]
    );
}

#[test]
fn dropped_package_is_taken_once_there_is_room() {
    let mut connection = open_connection().with_backlog(1);
    connection.push_package(data(1, &[1]));
    connection.push_package(data(2, &[2]));
    assert_eq!(connection.collect_packages(), vec![data(1, &[1])]);
    connection.push_package(data(2, &[2]));
    assert_eq!(connection.collect_packages(), vec![data(2, &[2])]);
    assert_eq!(connection.dropped_packages, 1);
}

#[test]
fn queue_without_room_takes_nothing() {
    let mut connection = open_connection().with_backlog(0);
    connection.push_package(data(1, &[1]));
    assert!(connection.package_list.is_empty());
    assert_eq!(connection.dropped_packages, 1);
}

#[test]
fn default_backlog_holds_thirty_two_packages() {
    let mut connection = open_connection();
    for id in 0..40 {
        connection.push_package(data(id, &[]));
    }
    assert_eq!(connection.dropped_packages, 8);
    assert_eq!(connection.collect_packages().len(), 32);
}

#[test]
fn dropped_counter_does_not_wrap_around() {
    let mut connection = open_connection().with_backlog(0);
    connection.dropped_packages = u64::MAX;
    connection.push_package(data(1, &[1]));
    assert_eq!(connection.dropped_packages, u64::MAX);
}

#[test]
fn collect_clears_queue_and_journal() {
    let mut connection = open_connection();
    connection.push_package(data(1, &[1]));
    assert!(connection.package_journal.contains(&1));
    assert_eq!(connection.collect_packages().len(), 1);
    assert!(connection.package_list.is_empty());
    assert!(connection.package_journal.is_empty());
    assert!(connection.collect_packages().is_empty());
}

#[test]
fn id_is_taken_again_after_a_drain() {
    let mut connection = open_connection();
    connection.push_package(data(1, &[1]));
    assert_eq!(connection.collect_packages(), vec![data(1, &[1])]);
    connection.push_package(data(1, &[9]));
    assert_eq!(connection.collect_packages(), vec![data(1, &[9])]);
}

#[test]
fn with_backlog_changes_only_the_bound() {
    let connection = open_connection().with_backlog(5);
    assert_eq!(connection.max_package_backlog, 5);
    assert_eq!(connection.id, 7);
    assert_eq!(connection.get_state(), ConnectionState::Connected);
}

#[test]
fn secret_is_set_and_read() {
    let mut connection = open_connection();
    connection.set_secret(vec![1, 2, 3]);
    assert_eq!(connection.get_secret(), vec![1, 2, 3]);
    connection.set_secret(vec![]);
    assert_eq!(connection.get_secret(), Vec::<u8>::new());
}

#[test]
fn public_key_is_read_from_der() {
    let key = Rsa::generate(2048).unwrap();
    let der = key.public_key_to_der().unwrap();
    let mut connection = open_connection();
    assert!(connection.get_public_key().is_none());
    assert_eq!(connection.set_public_key(der.clone()), Ok(()));
    let stored = connection.get_public_key().unwrap();
    assert_eq!(stored.public_key_to_der().unwrap(), der);
}

#[test]
fn bytes_that_are_no_key_are_refused() {
    let mut connection = open_connection();
    assert_eq!(
        connection.set_public_key(vec![1, 2, 3]),
        Err(ErrorKind::InvalidKey)
    );
    assert_eq!(connection.set_public_key(vec![]), Err(ErrorKind::InvalidKey));
    assert!(connection.get_public_key().is_none());
}

#[test]
fn refused_key_leaves_the_old_key() {
    let der = Rsa::generate(2048).unwrap().public_key_to_der().unwrap();
    let mut connection = open_connection();
    connection.set_public_key(der.clone()).unwrap();
    assert_eq!(
        connection.set_public_key(vec![0x30, 0x00]),
        Err(ErrorKind::InvalidKey)
    );
    assert_eq!(
        connection.get_public_key().unwrap().public_key_to_der().unwrap(),
        der
    );
}

#[test]
fn error_kinds_have_words() {
    assert_eq!(
        ErrorKind::UnknownConnection.message(),
        "Connection unknown! Has it been dropped?"
    );
    assert_eq!(
        ErrorKind::BindFailure.message(),
        "Could not bind socket to address!"
    );
    assert_eq!(
        ErrorKind::InvalidKey.message(),
        "Error decoding DER to public key!"
    );
}

#[test]
fn parsed_key_is_stored() {
    let der = Rsa::generate(2048).unwrap().public_key_to_der().unwrap();
    let mut connection = open_connection();
    connection.push_package(data(1, &[1]));
    assert_eq!(
        connection.store_public_key(Rsa::public_key_from_der(&der)),
        Ok(())
    );
    assert_eq!(
        connection.get_public_key().unwrap().public_key_to_der().unwrap(),
        der
    );
    assert_eq!(connection.id, 7);
    assert_eq!(connection.get_state(), ConnectionState::Connected);
    assert_eq!(connection.package_list.len(), 1);
}

#[test]
fn failed_parse_is_answered_with_invalid_key() {
    let mut connection = open_connection();
    assert_eq!(
        connection.store_public_key(Err(ErrorStack::get())),
        Err(ErrorKind::InvalidKey)
    );
    assert!(connection.get_public_key().is_none());
    assert_eq!(
        connection.store_public_key(Rsa::public_key_from_der(&[1, 2, 3])),
        Err(ErrorKind::InvalidKey)
    );
    assert!(connection.get_public_key().is_none());
}

#[test]
fn table_full_has_words() {
    assert_eq!(ErrorKind::TableFull.message(), "Every connection id is taken!");
}
