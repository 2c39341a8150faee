use redis_lite::config::{Config, ConfigError};
use redis_lite::node::RedisState;
use redis_lite::snapshot::{construct_rdb, psync_reply};

fn args(list: &[&str]) -> Vec<Vec<u8>> {
    list.iter().map(|a| a.as_bytes().to_vec()).collect()
}

#[test]
fn defaults_to_leader_on_6379() {
    let c = Config::parse(&args(&["server"])).unwrap();
    assert_eq!(c.port, 6379);
    assert_eq!(c.role, RedisState::Master);
    assert_eq!(c.master_replid, Some(b"8371b4fb1155b71f4a04d3e1bc3e18c4a990aeeb".to_vec()));
    assert_eq!(c.master_repl_offset, Some(0));
}

#[test]
fn replicaof_makes_a_follower() {
    let c = Config::parse(&args(&["server", "--port", "6380", "--replicaof", "localhost 6379"])).unwrap();
    assert_eq!(c.port, 6380);
    assert_eq!(c.role, RedisState::Replica);
    assert_eq!(c.master_host, Some(b"localhost".to_vec()));
    assert_eq!(c.master_port, Some(6379));
    assert_eq!(c.master_replid, None);
}

#[test]
fn dir_and_dbfilename_are_kept() {
    let c = Config::parse(&args(&["s", "--dir", "/tmp/x", "--dbfilename", "dump.rdb", "--other"])).unwrap();
    assert_eq!(c.rdb_dir, Some(b"/tmp/x".to_vec()));
    assert_eq!(c.rdb_filename, Some(b"dump.rdb".to_vec()));
}

#[test]
fn config_errors() {
    assert_eq!(Config::parse(&args(&["s", "--port"])).err(), Some(ConfigError::NoArgFound));
    assert_eq!(Config::parse(&args(&["s", "--port", "70000"])).err(), Some(ConfigError::InvalidPort));
    assert_eq!(
        Config::parse(&args(&["s", "--replicaof", "localhost"])).err(),
        Some(ConfigError::InvalidReplicaOf)
    );
}

#[test]
fn empty_snapshot_decodes() {
    let rdb = construct_rdb().unwrap();
    assert_eq!(rdb.len(), 88);
    assert!(rdb.starts_with(b"REDIS0011"));
    assert_eq!(rdb[rdb.len() - 9], 0xff);
}

#[test]
fn psync_reply_bytes() {
    let r = psync_reply(&b"abc".to_vec(), &b"xyz".to_vec());
    assert_eq!(r, b"+FULLRESYNC abc 0\r\n$3\r\nxyz".to_vec());
}
