use pneumatic_core::conns::factories::SenderPlan;
use pneumatic_core::conns::{ConnError, ConnTarget, LocalTarget};
use pneumatic_core::data::{
    conn_error_to_data_error, default_source, epoch_key, exchange_outcome,
    looked_up_tip, DataError, DataOp, DataProvider, DataRequest,
    DefaultDataProvider, Exchange, GetOp, SaveOp, StubDataProvider, DATA_TCP_PORT,
};
use pneumatic_core::epoch::{ExecutorSet, StakeSet};
use pneumatic_core::tokens::Token;
use pneumatic_core::user::User;

fn io_error(msg: &str) -> std::io::Error {
    std::io::Error::new(std::io::ErrorKind::Other, msg.to_string())
}

#[test]
fn data_error_crypto_error_display() {
    let err = DataError::CryptoError("RwLock poisoned: ...".to_string());
    assert!(err.to_string().contains("CryptoError"));
}

#[test]
fn data_op_display() {
    assert_eq!(DataOp::Get(GetOp::Token).to_string(), "Get(Token)");
    assert_eq!(DataOp::Save(SaveOp::Token(Token::default())).to_string(), "Save(Token)");
}

#[test]
fn get_op_display() {
    assert_eq!(GetOp::Token.to_string(), "Token");
    assert_eq!(GetOp::Data.to_string(), "Data");
    assert_eq!(GetOp::User.to_string(), "User");
    assert_eq!(GetOp::StakeSnapshot(12).to_string(), "StakeSnapshot(12)");
    assert_eq!(GetOp::ExecutorSet(0).to_string(), "ExecutorSet(0)");
}

#[test]
fn save_op_display() {
    assert_eq!(SaveOp::Token(Token::default()).to_string(), "Token");
    assert_eq!(SaveOp::Data(vec![]).to_string(), "Data");
    assert_eq!(SaveOp::User(User::default()).to_string(), "User");
    assert_eq!(SaveOp::StakeSnapshot(StakeSet::default()).to_string(), "StakeSnapshot");
}

#[test]
fn data_errors_read_as_text() {
    assert_eq!(DataError::FromStore("x".into()).to_string(), "FromStore(x)");
    assert_eq!(DataError::SerializationError(io_error("s")).to_string(), "SerializationError(s)");
    assert_eq!(DataError::DeserializationError(io_error("d")).to_string(), "DeserializationError(d)");
    assert_eq!(DataError::DataNotFound.to_string(), "DataNotFound");
    assert_eq!(DataError::StoreNotFound.to_string(), "StoreNotFound");
    assert_eq!(DataError::CacheError.to_string(), "CacheError");
    assert_eq!(DataError::Poisoned.to_string(), "Poisoned");
    assert_eq!(
        DataError::InvalidOperation(DataOp::Get(GetOp::User)).to_string(),
        "InvalidOperation(Get(User))"
    );
    assert_eq!(DataError::InvalidSignature.to_string(), "InvalidSignature");
    assert_eq!(DataError::Timeout("t".into()).to_string(), "Timeout(t)");
    assert_eq!(DataError::PeerUnauthenticated("p".into()).to_string(), "PeerUnauthenticated(p)");
}

#[test]
fn channel_failures_become_data_errors() {
    assert!(matches!(conn_error_to_data_error(ConnError::Timeout("t".into())), DataError::Timeout(m) if m == "t"));
    assert!(matches!(
        conn_error_to_data_error(ConnError::Unauthenticated("u".into())),
        DataError::PeerUnauthenticated(m) if m == "u"
    ));
    assert!(matches!(
        conn_error_to_data_error(ConnError::IO("i".into())),
        DataError::FromStore(m) if m == "IO(i)"
    ));
}

#[test]
fn exchanges_end_in_their_outcome() {
    assert!(matches!(
        exchange_outcome::<u8>(Exchange::NotSerialized(io_error("s"))),
        Err(DataError::SerializationError(_))
    ));
    assert!(matches!(
        exchange_outcome::<u8>(Exchange::Failed(ConnError::Timeout("t".into()))),
        Err(DataError::Timeout(_))
    ));
    assert!(matches!(
        exchange_outcome::<u8>(Exchange::NotDeserialized(io_error("d"))),
        Err(DataError::DeserializationError(_))
    ));
    assert!(matches!(exchange_outcome(Exchange::Answered(7u8)), Ok(7)));
}

#[test]
fn requests_keep_reads_and_writes_apart() {
    let provider = DefaultDataProvider::new(default_source(true, None));
    let read = provider.get_data_internal(true, &vec![1], DataOp::Get(GetOp::Data), "p", |_plan, request| {
        assert_eq!(request.key, vec![1]);
        assert_eq!(request.partition_id, "p");
        Exchange::Answered(7u8)
    });
    assert!(matches!(read, Ok(7)));
    let refused = provider.get_data_internal::<u8, _>(
        true,
        &vec![1],
        DataOp::Save(SaveOp::Data(vec![])),
        "p",
        |_plan, _request| panic!("a refused request is not sent"),
    );
    assert!(matches!(refused, Err(DataError::InvalidOperation(DataOp::Save(_)))));
    let written = provider.save_data_internal(
        true,
        &vec![1],
        DataOp::Save(SaveOp::Data(vec![])),
        "p",
        |_plan, _request| Exchange::Answered(()),
    );
    assert!(written.is_ok());
    let refused = provider.save_data_internal(true, &vec![1], DataOp::Get(GetOp::Data), "p", |_plan, _request| {
        panic!("a refused request is not sent")
    });
    assert!(matches!(refused, Err(DataError::InvalidOperation(DataOp::Get(_)))));
    assert_eq!(epoch_key(258), vec![0, 0, 0, 0, 0, 0, 1, 2]);
    assert!(matches!(DataRequest::new(&vec![3], DataOp::Get(GetOp::User), "q").op, DataOp::Get(GetOp::User)));
}

#[test]
fn get_user_returns_timeout_on_non_responding_data_service() {
    let provider = DefaultDataProvider::new(default_source(true, Some("data.sock".to_string()))).with_timeout(1_000);
    let result = provider.get_user(true, &vec![1, 2, 3], "default", |plan, request| {
        assert!(matches!(request.op, DataOp::Get(GetOp::User)));
        match plan {
            SenderPlan::Uds(sender) => {
                assert_eq!(sender.path, "data.sock");
                assert_eq!(sender.read_timeout_millis, Some(1_000));
            }
            other => panic!("unexpected {:?}", other),
        }
        Exchange::Failed(ConnError::Timeout("timed out".into()))
    });
    assert!(
        matches!(result, Err(DataError::Timeout(_))),
        "expected Timeout on a hung data service, got {:?}",
        result
    );
}

#[test]
fn every_operation_asks_for_its_own_request() {
    let provider = DefaultDataProvider::new(default_source(true, None)).with_secret(vec![5]);
    let key = vec![4];
    assert!(provider
        .get_token(true, &key, "p", |plan, request| {
            assert!(matches!(plan, SenderPlan::Uds(s) if s.secret == Some(vec![5]) && s.path == "/tmp/data.sock"));
            assert!(matches!(request.op, DataOp::Get(GetOp::Token)));
            Exchange::Answered(Token::default())
        })
        .is_ok());
    assert!(provider
        .save_token(true, &key, Token::default(), "p", |_, request| {
            assert!(matches!(request.op, DataOp::Save(SaveOp::Token(_))));
            Exchange::Answered(())
        })
        .is_ok());
    assert_eq!(
        provider
            .get_data(true, &key, "p", |_, request| {
                assert!(matches!(request.op, DataOp::Get(GetOp::Data)));
                Exchange::Answered(vec![1])
            })
            .unwrap(),
        vec![1]
    );
    assert!(provider
        .save_data(true, &key, vec![8], "p", |_, request| {
            assert!(matches!(request.op, DataOp::Save(SaveOp::Data(d)) if d == vec![8]));
            Exchange::Answered(())
        })
        .is_ok());
    assert!(provider
        .save_user(true, &key, User::default(), "p", |_, request| {
            assert!(matches!(request.op, DataOp::Save(SaveOp::User(_))));
            Exchange::NotSerialized(io_error("s"))
        })
        .is_err());
    assert!(provider
        .get_stake_snapshot(true, 258, "p", |_, request| {
            assert_eq!(request.key, vec![0, 0, 0, 0, 0, 0, 1, 2]);
            assert!(matches!(request.op, DataOp::Get(GetOp::StakeSnapshot(258))));
            Exchange::Answered(StakeSet::default())
        })
        .is_ok());
    assert!(provider
        .save_stake_snapshot(true, 1, StakeSet::default(), "p", |_, request| {
            assert_eq!(request.key, epoch_key(1));
            assert!(matches!(request.op, DataOp::Save(SaveOp::StakeSnapshot(_))));
            Exchange::Answered(())
        })
        .is_ok());
    assert!(provider
        .get_executor_set(true, 3, "p", |_, request| {
            assert!(matches!(request.op, DataOp::Get(GetOp::ExecutorSet(3))));
            Exchange::NotDeserialized(io_error("d"))
        })
        .is_err());
    assert!(provider
        .save_executor_set(true, 3, ExecutorSet::default(), "p", |_, request| {
            assert!(matches!(request.op, DataOp::Save(SaveOp::ExecutorSet(_))));
            Exchange::Answered(())
        })
        .is_ok());
    let tip = provider.latest_block_hash(true, "tokens", |_, request| {
        assert_eq!(request.key, b"tokens");
        assert_eq!(request.partition_id, "tokens");
        Exchange::Answered(Token::default())
    });
    assert_eq!(tip.unwrap(), Some(vec![]));
    let unsent = provider.get_user(false, &key, "p", |_, _| panic!("there is no sender"));
    assert!(matches!(unsent, Err(DataError::StoreNotFound)));
}

#[test]
fn sources_and_settings_of_the_default_provider() {
    match default_source(true, Some("/run/data.sock".to_string())) {
        ConnTarget::Local(LocalTarget::Unix(path)) => assert_eq!(path, "/run/data.sock"),
        other => panic!("unexpected {:?}", other),
    }
    match default_source(true, None) {
        ConnTarget::Local(LocalTarget::Unix(path)) => assert_eq!(path, "/tmp/data.sock"),
        other => panic!("unexpected {:?}", other),
    }
    match default_source(false, None) {
        ConnTarget::Local(LocalTarget::Tcp(addr)) => {
            assert_eq!(addr.host, "127.0.0.1");
            assert_eq!(addr.port, DATA_TCP_PORT);
        }
        other => panic!("unexpected {:?}", other),
    }
    let provider = DefaultDataProvider::new(default_source(true, None)).with_timeout(10);
    assert_eq!(provider.conn_factory.rw_timeout_millis, 10);
    let provider = provider.with_secret(vec![5]);
    assert_eq!(provider.conn_factory.shared_secret, Some(vec![5]));
    assert_eq!(provider.conn_factory.rw_timeout_millis, 15_000);
    let provider = provider.with_source(default_source(false, None));
    assert!(matches!(provider.get_source(), ConnTarget::Local(LocalTarget::Tcp(_))));
}

#[test]
fn stub_provider_serves_what_it_was_given() {
    let mut stakes = StakeSet::default();
    stakes.stakers.insert(vec![1], 5);
    let mut stub = StubDataProvider::new()
        .with_token(vec![1], "p".to_string(), Token::default())
        .with_user(vec![2], "p".to_string(), User { public_key: vec![2], fuel_balance: 1, stake: 2, nonce: 3 })
        .with_stake_snapshot(4, stakes);
    assert!(stub.get_token(&vec![1], "p").is_ok());
    assert!(matches!(stub.get_token(&vec![1], "q"), Err(DataError::DataNotFound)));
    assert_eq!(stub.get_user(&vec![2], "p").unwrap().nonce, 3);
    assert!(matches!(stub.get_user(&vec![1], "p"), Err(DataError::DataNotFound)));
    assert_eq!(stub.get_stake_snapshot(4, "any").unwrap().total_stake(), 5);
    assert!(matches!(stub.get_stake_snapshot(5, "any"), Err(DataError::DataNotFound)));
    assert!(matches!(stub.get_data(&vec![1], "p"), Err(DataError::DataNotFound)));
    assert!(stub.save_data(&vec![1], vec![], "p").is_ok());
    assert!(stub.save_token(&vec![9], Token::default(), "p").is_ok());
    assert!(stub.get_token(&vec![9], "p").is_err());
    stub.save_user(&vec![7], User::default(), "p").unwrap();
    assert!(stub.get_user(&vec![7], "p").is_ok());
    assert_eq!(stub.latest_block_hash("p").unwrap(), Some(vec![]));
    assert_eq!(stub.latest_block_hash("q").unwrap(), None);
    assert!(matches!(looked_up_tip(Err(DataError::DataNotFound)), Err(DataError::DataNotFound)));
    assert_eq!(looked_up_tip(Ok(Token::default())).unwrap(), Some(vec![]));
}
