use kharon::chain::{
    block_request, check_status, decimal_text, decode_latest_height, decode_transactions,
    height_from_parts, height_from_text, latest_height, latest_height_request, read_block, Block,
    Exchange, Transaction, BLOCK_METHOD, LATEST_HEIGHT_METHOD,
};

fn answered(status: u16, body: &str) -> Exchange {
    Exchange::Answered { status, body: body.to_string() }
}
use kharon::error::RpcError;

#[test]
fn methods_are_named_as_the_endpoint_names_them() {
    assert_eq!(LATEST_HEIGHT_METHOD, "chain_blockNumber");
    assert_eq!(BLOCK_METHOD, "chain_getBlockWithTransactions");
}

#[test]
fn status_of_the_success_class_passes() {
    assert_eq!(check_status(200), Ok(()));
    assert_eq!(check_status(204), Ok(()));
    assert_eq!(check_status(299), Ok(()));
    assert_eq!(check_status(199), Err(RpcError::Status(199)));
    assert_eq!(check_status(300), Err(RpcError::Status(300)));
    assert_eq!(check_status(404), Err(RpcError::Status(404)));
    assert_eq!(check_status(500), Err(RpcError::Status(500)));
    assert_eq!(check_status(0), Err(RpcError::Status(0)));
}

#[test]
fn height_is_read_from_decimal_text() {
    assert_eq!(height_from_text("0"), Some(0));
    assert_eq!(height_from_text("150"), Some(150));
    assert_eq!(height_from_text("000150"), Some(150));
    assert_eq!(
        height_from_text("340282366920938463463374607431768211455"),
        Some(u128::MAX)
    );
}

#[test]
fn height_is_read_from_hexadecimal_text() {
    assert_eq!(height_from_text("0x0"), Some(0));
    assert_eq!(height_from_text("0x96"), Some(150));
    assert_eq!(height_from_text("0X96"), Some(150));
    assert_eq!(height_from_text("0xfF"), Some(255));
    assert_eq!(height_from_text("0x0000ff"), Some(255));
    assert_eq!(
        height_from_text("0xffffffffffffffffffffffffffffffff"),
        Some(u128::MAX)
    );
}

#[test]
fn text_that_writes_no_height_is_refused() {
    assert_eq!(height_from_text(""), None);
    assert_eq!(height_from_text("0x"), None);
    assert_eq!(height_from_text("12a"), None);
    assert_eq!(height_from_text("ff"), None);
    assert_eq!(height_from_text("0xg1"), None);
    assert_eq!(height_from_text("-5"), None);
    assert_eq!(height_from_text("+5"), None);
    assert_eq!(height_from_text(" 5"), None);
    assert_eq!(height_from_text("5 "), None);
    assert_eq!(height_from_text("1.0"), None);
    assert_eq!(height_from_text("\u{663}"), None);
}

#[test]
fn height_that_does_not_fit_is_refused() {
    assert_eq!(height_from_text("340282366920938463463374607431768211456"), None);
    assert_eq!(height_from_text("3402823669209384634633746074317682114550"), None);
    assert_eq!(height_from_text("0x100000000000000000000000000000000"), None);
    assert_eq!(height_from_text("0x1ffffffffffffffffffffffffffffffff"), None);
}

#[test]
fn height_comes_from_the_number_or_else_from_the_text() {
    assert_eq!(height_from_parts(Some(150), None), Ok(150));
    assert_eq!(height_from_parts(Some(150), Some("7")), Ok(150));
    assert_eq!(height_from_parts(None, Some("0x96")), Ok(150));
    assert_eq!(height_from_parts(None, Some("150")), Ok(150));
    assert_eq!(height_from_parts(None, Some("latest")), Err(RpcError::Malformed));
    assert_eq!(height_from_parts(None, None), Err(RpcError::Malformed));
    assert_eq!(height_from_parts(Some(u64::MAX), None), Ok(u64::MAX as u128));
}

#[test]
fn latest_height_is_read_from_the_result() {
    assert_eq!(
        decode_latest_height("{\"jsonrpc\":\"2.0\",\"result\":150,\"id\":0}"),
        Ok(150)
    );
    assert_eq!(
        decode_latest_height("{\"jsonrpc\":\"2.0\",\"result\":\"0x96\",\"id\":0}"),
        Ok(150)
    );
    assert_eq!(decode_latest_height("{\"result\":\"150\"}"), Ok(150));
    assert_eq!(decode_latest_height("{\"result\":0}"), Ok(0));
    assert_eq!(
        decode_latest_height("{\"result\":18446744073709551615}"),
        Ok(u64::MAX as u128)
    );
}

#[test]
fn answer_without_a_usable_result_is_malformed() {
    assert_eq!(decode_latest_height(""), Err(RpcError::Malformed));
    assert_eq!(decode_latest_height("not json"), Err(RpcError::Malformed));
    assert_eq!(decode_latest_height("{\"result\":150"), Err(RpcError::Malformed));
    assert_eq!(decode_latest_height("{\"id\":0}"), Err(RpcError::Malformed));
    assert_eq!(decode_latest_height("{\"result\":null}"), Err(RpcError::Malformed));
    assert_eq!(decode_latest_height("{\"result\":-1}"), Err(RpcError::Malformed));
    assert_eq!(decode_latest_height("{\"result\":1.5}"), Err(RpcError::Malformed));
    assert_eq!(decode_latest_height("{\"result\":\"head\"}"), Err(RpcError::Malformed));
    assert_eq!(decode_latest_height("{\"result\":[150]}"), Err(RpcError::Malformed));
    assert_eq!(decode_latest_height("[150]"), Err(RpcError::Malformed));
    assert_eq!(decode_latest_height("150"), Err(RpcError::Malformed));
}

#[test]
fn status_is_looked_at_before_the_body() {
    assert_eq!(latest_height(&answered(200, "{\"result\":150}")), Ok(150));
    assert_eq!(latest_height(&answered(500, "{\"result\":150}")), Err(RpcError::Status(500)));
    assert_eq!(latest_height(&answered(404, "nothing here")), Err(RpcError::Status(404)));
    assert_eq!(latest_height(&answered(200, "nothing here")), Err(RpcError::Malformed));
}

#[test]
fn request_without_an_answer_is_a_transport_failure() {
    assert_eq!(latest_height(&Exchange::Unanswered), Err(RpcError::Transport));
    assert_eq!(read_block(120, &Exchange::Unanswered), Err(RpcError::Transport));
}

fn block_body() -> &'static str {
    "{\"jsonrpc\":\"2.0\",\"id\":0,\"result\":{\"block_number\":120,\"transactions\":[\
     {\"transaction_hash\":\"0x111\",\"sender_address\":\"0xABC\",\"type\":\"INVOKE\"},\
     {\"transaction_hash\":\"0x222\",\"sender_address\":\"0x0\",\"type\":\"INVOKE\"},\
     {\"sender_address\":\"0x0def\",\"transaction_hash\":\"0x333\"}]}}"
}

#[test]
fn transactions_are_read_in_the_order_of_the_block() {
    let transactions = decode_transactions(block_body()).unwrap();
    assert_eq!(transactions.len(), 3);
    assert_eq!(transactions[0].hash, "0x111");
    assert_eq!(transactions[0].sender_address, Some("0xABC".to_string()));
    assert_eq!(transactions[1].hash, "0x222");
    assert_eq!(transactions[2].hash, "0x333");
    assert_eq!(transactions[2].sender_address, Some("0x0def".to_string()));
}

#[test]
fn transaction_without_a_sender_stays_without() {
    let transactions = decode_transactions(
        "{\"result\":{\"transactions\":[\
         {\"transaction_hash\":\"0x1\",\"sender_address\":\"0x2\"},\
         {\"transaction_hash\":\"0x3\",\"type\":\"DEPLOY\"},\
         {\"transaction_hash\":\"0x4\",\"sender_address\":7},\
         {\"transaction_hash\":\"0x5\",\"sender_address\":null}]}}",
    )
    .unwrap();
    assert_eq!(transactions.len(), 4);
    assert_eq!(transactions[0].sender_address, Some("0x2".to_string()));
    assert_eq!(transactions[1].sender_address, None);
    assert_eq!(transactions[1].hash, "0x3");
    assert_eq!(transactions[2].sender_address, None);
    assert_eq!(transactions[3].sender_address, None);
}

#[test]
fn transaction_without_a_hash_has_the_empty_text_for_one() {
    let transactions = decode_transactions(
        "{\"result\":{\"transactions\":[\
         {\"sender_address\":\"0x2\"},\
         {\"transaction_hash\":17,\"sender_address\":\"0x3\"},\
         \"0x1\",\
         {}]}}",
    )
    .unwrap();
    assert_eq!(transactions.len(), 4);
    assert_eq!(transactions[0].hash, "");
    assert_eq!(transactions[0].sender_address, Some("0x2".to_string()));
    assert_eq!(transactions[1].hash, "");
    assert_eq!(transactions[1].sender_address, Some("0x3".to_string()));
    assert_eq!(transactions[2].hash, "");
    assert_eq!(transactions[2].sender_address, None);
    assert_eq!(transactions[2].raw, "\"0x1\"");
    assert_eq!(transactions[3].hash, "");
    assert_eq!(transactions[3].raw, "{}");
}

#[test]
fn transaction_is_kept_as_it_was_written() {
    let transactions = decode_transactions(
        "{\"result\":{\"transactions\":[ { \"nonce\" : 4 , \"sender_address\" : \"0x9\" , \"transaction_hash\" : \"0x1\" } ]}}",
    )
    .unwrap();
    assert_eq!(
        transactions[0].raw,
        "{\"nonce\":4,\"sender_address\":\"0x9\",\"transaction_hash\":\"0x1\"}"
    );
}

#[test]
fn block_without_transactions_is_a_block() {
    assert_eq!(
        decode_transactions("{\"result\":{\"transactions\":[]}}"),
        Ok(Vec::<Transaction>::new())
    );
    assert_eq!(
        read_block(7, &answered(200, "{\"result\":{\"transactions\":[]}}")),
        Ok(Block { number: 7, transactions: Vec::new() })
    );
}

#[test]
fn answer_without_a_list_of_transactions_is_malformed() {
    assert_eq!(decode_transactions("not json"), Err(RpcError::Malformed));
    assert_eq!(decode_transactions("{}"), Err(RpcError::Malformed));
    assert_eq!(decode_transactions("{\"result\":{}}"), Err(RpcError::Malformed));
    assert_eq!(decode_transactions("{\"result\":null}"), Err(RpcError::Malformed));
    assert_eq!(
        decode_transactions("{\"result\":{\"transactions\":null}}"),
        Err(RpcError::Malformed)
    );
    assert_eq!(
        decode_transactions("{\"result\":{\"transactions\":{\"0\":1}}}"),
        Err(RpcError::Malformed)
    );
    assert_eq!(
        decode_transactions("{\"error\":{\"code\":24,\"message\":\"Block not found\"}}"),
        Err(RpcError::Malformed)
    );
}

#[test]
fn block_fails_only_without_an_answer_a_good_status_or_the_array() {
    let odd = "{\"result\":{\"transactions\":[1,null,{\"x\":2},\"t\"]}}";
    for status in [200u16, 201, 299] {
        assert_eq!(read_block(9, &answered(status, odd)).unwrap().transactions.len(), 4);
    }
    for status in [0u16, 199, 300, 404, 500] {
        assert_eq!(read_block(9, &answered(status, odd)), Err(RpcError::Status(status)));
    }
    assert_eq!(read_block(9, &Exchange::Unanswered), Err(RpcError::Transport));
    for body in ["", "[]", "{}", "{\"result\":[]}", "{\"result\":{\"transactions\":\"none\"}}"] {
        assert_eq!(read_block(9, &answered(200, body)), Err(RpcError::Malformed));
    }
}

#[test]
fn failed_request_for_a_block_is_told_from_an_empty_block() {
    assert_eq!(read_block(120, &answered(503, block_body())), Err(RpcError::Status(503)));
    let block = read_block(120, &answered(200, block_body())).unwrap();
    assert_eq!(block.number, 120);
    assert_eq!(block.transactions, decode_transactions(block_body()).unwrap());
    assert_eq!(block.transactions.len(), 3);
    assert_eq!(read_block(120, &answered(200, "")), Err(RpcError::Malformed));
}

#[test]
fn transaction_is_made_of_its_parts() {
    assert_eq!(
        Transaction::from_parts(Some("0x1"), Some("0xabc"), "{}".to_string()),
        Transaction {
            hash: "0x1".to_string(),
            sender_address: Some("0xabc".to_string()),
            raw: "{}".to_string(),
        }
    );
    assert_eq!(
        Transaction::from_parts(Some("0x1"), None, "raw".to_string()),
        Transaction { hash: "0x1".to_string(), sender_address: None, raw: "raw".to_string() }
    );
    assert_eq!(
        Transaction::from_parts(None, Some("0xabc"), "raw".to_string()),
        Transaction {
            hash: String::new(),
            sender_address: Some("0xabc".to_string()),
            raw: "raw".to_string(),
        }
    );
    assert_eq!(
        Transaction::from_parts(None, None, String::new()),
        Transaction { hash: String::new(), sender_address: None, raw: String::new() }
    );
}

#[test]
fn transaction_copies_are_equal() {
    let t = Transaction::from_parts(Some("0x1"), Some("0xabc"), "{}".to_string());
    assert_eq!(t.clone(), t);
}

#[test]
fn heights_are_written_in_decimal() {
    assert_eq!(decimal_text(0), "0");
    assert_eq!(decimal_text(7), "7");
    assert_eq!(decimal_text(10), "10");
    assert_eq!(decimal_text(150), "150");
    assert_eq!(decimal_text(1_000_000), "1000000");
    assert_eq!(decimal_text(u128::MAX), "340282366920938463463374607431768211455");
}

#[test]
fn written_heights_read_back() {
    for n in [0u128, 1, 9, 10, 11, 99, 100, 12345, u64::MAX as u128, u128::MAX - 1, u128::MAX] {
        assert_eq!(height_from_text(&decimal_text(n)), Some(n));
    }
}

#[test]
fn request_for_the_chain_head_names_the_method() {
    assert_eq!(
        latest_height_request(),
        "{\"jsonrpc\":\"2.0\",\"method\":\"chain_blockNumber\",\"params\":[],\"id\":0}"
    );
    let parsed: serde_json::Value = serde_json::from_str(&latest_height_request()).unwrap();
    assert_eq!(parsed.get("method").and_then(|m| m.as_str()), Some(LATEST_HEIGHT_METHOD));
    assert_eq!(parsed.get("jsonrpc").and_then(|m| m.as_str()), Some("2.0"));
    assert_eq!(parsed.get("params").and_then(|p| p.as_array()).map(|a| a.len()), Some(0));
}

#[test]
fn request_for_a_block_names_its_height() {
    assert_eq!(
        block_request(120),
        "{\"jsonrpc\":\"2.0\",\"method\":\"chain_getBlockWithTransactions\",\"params\":{\"block_id\":{\"block_number\":120}},\"id\":0}"
    );
    let parsed: serde_json::Value = serde_json::from_str(&block_request(120)).unwrap();
    assert_eq!(parsed.get("method").and_then(|m| m.as_str()), Some(BLOCK_METHOD));
    let number = parsed
        .get("params")
        .and_then(|p| p.get("block_id"))
        .and_then(|b| b.get("block_number"))
        .and_then(|n| n.as_u64());
    assert_eq!(number, Some(120));
    assert!(block_request(0).contains("\"block_number\":0}"));
}
