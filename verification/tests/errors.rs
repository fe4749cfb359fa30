use pneumatic_core::conns::ConnError;
use pneumatic_core::data::DataError;
use pneumatic_core::errors::{
    ExecutorRoutingError, PneumaticError, TransactionRiskFactor, ValidationFailureReason,
};
use pneumatic_core::tokens::BlockValidationError;

#[test]
fn from_io_error_becomes_encoding() {
    let io_err = std::io::Error::new(std::io::ErrorKind::Other, "test io error");
    let err: PneumaticError = io_err.into();
    match err {
        PneumaticError::Encoding(msg) => assert_eq!(msg, "test io error"),
        _ => panic!("expected Encoding variant, got {:?}", err),
    }
}

#[test]
fn from_data_error_becomes_data() {
    let data_err = DataError::DeserializationError(std::io::Error::new(
        std::io::ErrorKind::Other,
        "test data error",
    ));
    let err: PneumaticError = data_err.into();
    match err {
        PneumaticError::Data(_) => {}
        _ => panic!("expected Data variant, got {:?}", err),
    }
}

#[test]
fn from_block_validation_error_becomes_block() {
    let block_err = BlockValidationError::ImproperBlockFormatting;
    let err: PneumaticError = block_err.into();
    match err {
        PneumaticError::Block(_) => {}
        _ => panic!("expected Block variant, got {:?}", err),
    }
}

#[test]
fn from_conn_error_becomes_network() {
    let conn_err = ConnError::IO("connection lost".to_string());
    let err: PneumaticError = conn_err.into();
    match err {
        PneumaticError::Network(msg) => assert_eq!(msg, "IO(connection lost)"),
        _ => panic!("expected Network variant, got {:?}", err),
    }
}

fn risk(affected_parties: usize, amount: u64, is_contract: bool) -> TransactionRiskFactor {
    TransactionRiskFactor { affected_parties, amount, is_contract, is_multi_party: false }
}

#[test]
fn risk_score_low_amount_one_party_no_complexity() {
    assert_eq!(risk(1, 0, false).score_percent() as f64 / 100.0, 0.15);
}

#[test]
fn risk_score_medium_amount_two_parties() {
    assert_eq!(risk(2, 500_000, false).score_percent() as f64 / 100.0, 0.30);
}

#[test]
fn risk_score_high_amount_three_plus_complex() {
    assert_eq!(risk(3, 2_000_000_000, true).score_percent() as f64 / 100.0, 1.0);
}

#[test]
fn amount_risk_small_medium_large() {
    assert_eq!(risk(0, 100, false).amount_risk_halves() as f64 / 2.0, 0.0);
    assert_eq!(risk(0, 1_000_001, false).amount_risk_halves() as f64 / 2.0, 0.5);
    assert_eq!(risk(0, 2_000_000_000, false).amount_risk_halves() as f64 / 2.0, 1.0);
}

#[test]
fn party_risk_one_two_three_plus() {
    assert_eq!(risk(1, 0, false).party_risk_halves() as f64 / 2.0, 0.0);
    assert_eq!(risk(2, 0, false).party_risk_halves() as f64 / 2.0, 0.5);
    assert_eq!(risk(5, 0, false).party_risk_halves() as f64 / 2.0, 1.0);
}

#[test]
fn validation_error_from_failure_reasons() {
    let err = PneumaticError::Validation(vec![ValidationFailureReason::InsufficientFunds]);
    match err {
        PneumaticError::Validation(ref reasons) => {
            assert_eq!(reasons.len(), 1);
            assert!(matches!(reasons[0], ValidationFailureReason::InsufficientFunds));
        }
        _ => panic!("expected Validation variant"),
    }
}

#[test]
fn pneumatic_error_debug_fmt_no_panic() {
    let err = PneumaticError::CryptoError("key expired".to_string());
    let debug_str = format!("{:?}", err);
    assert!(debug_str.contains("Crypto"));
}

#[test]
fn pneumatic_error_display_crypto_error() {
    let err = PneumaticError::CryptoError("decryption failed".to_string());
    assert!(err.to_string().contains("decryption failed"));
}

#[test]
fn pneumatic_error_from_conn_error_decrypt() {
    let conn_err = ConnError::DecryptError("bad nonce".to_string());
    let pneumatic_err = PneumaticError::from(conn_err);
    match pneumatic_err {
        PneumaticError::Network(msg) => assert!(msg.contains("bad nonce")),
        _ => panic!("expected Network variant"),
    }
}

#[test]
fn executor_routing_error_display_empty_set() {
    let err = ExecutorRoutingError::EmptyExecutorSet;
    assert_eq!(err.to_string(), "EmptyExecutorSet");
}

#[test]
fn executor_routing_error_display_shard_out_of_bounds() {
    let err = ExecutorRoutingError::ShardOutOfBounds(5, 3);
    assert_eq!(err.to_string(), "ShardOutOfBounds(5, 3)");
}

#[test]
fn executor_routing_error_converts_to_pneumatic_epoch() {
    let routing_err = ExecutorRoutingError::EmptyExecutorSet;
    let pneumatic_err: PneumaticError = routing_err.into();
    match pneumatic_err {
        PneumaticError::Epoch(msg) => assert!(msg.contains("EmptyExecutorSet")),
        _ => panic!("expected Epoch variant"),
    }
}

#[test]
fn validation_failures_are_listed_by_name() {
    let err = PneumaticError::Validation(vec![
        ValidationFailureReason::InsufficientGas,
        ValidationFailureReason::StaleNullifier,
    ]);
    assert_eq!(err.to_string(), "Validation([InsufficientGas, StaleNullifier])");
    assert_eq!(PneumaticError::Data(DataError::DataNotFound).to_string(), "Data(DataNotFound)");
}
