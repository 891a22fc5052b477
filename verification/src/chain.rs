//! What the chain endpoint says: the two methods the crawler calls, and how
//! an answer is read.
//!
//! Sending a request is the caller's business. The caller gets the body of
//! the request here, hands over what the exchange brought, and gets the
//! block height or the block, or the reason why there is none.

use crate::address::has_hex_prefix;
use crate::error::RpcError;
use crate::json::{
    document_of, items, items_of, member, member_of, parse, rendering, rendering_of, text, text_of,
    unsigned, unsigned_of,
};
use crate::partition::BlockHeight;
use vstd::prelude::*;
use vstd::string::*;

verus! {

/// The method that returns the height of the chain head.
pub const LATEST_HEIGHT_METHOD: &'static str = "chain_blockNumber";

/// The method that returns a block with its transactions.
pub const BLOCK_METHOD: &'static str = "chain_getBlockWithTransactions";

/// A transaction as the chain reports it. It never changes once fetched.
#[derive(Debug, PartialEq)]
pub struct Transaction {
    /// The hash of the transaction; empty if the endpoint gave none.
    pub hash: String,
    /// The address that sent the transaction, as the endpoint wrote it.
    /// Some kinds of transaction have no sender; such a transaction comes
    /// from no wallet.
    pub sender_address: Option<String>,
    /// The transaction as the endpoint wrote it, kept as it came.
    pub raw: String,
}

/// A transaction as a mathematical value.
pub struct TransactionView {
    pub hash: Seq<char>,
    pub sender_address: Option<Seq<char>>,
    pub raw: Seq<char>,
}

impl View for Transaction {
    type V = TransactionView;

    open spec fn view(&self) -> TransactionView {
        TransactionView {
            hash: self.hash@,
            sender_address: match self.sender_address {
                Some(sender) => Some(sender@),
                None => None,
            },
            raw: self.raw@,
        }
    }
}

impl Clone for Transaction {
    fn clone(&self) -> (copy: Transaction)
        ensures
            copy@ == self@,
    {
        Transaction {
            hash: self.hash.clone(),
            sender_address: match &self.sender_address {
                Some(sender) => Some(sender.clone()),
                None => None,
            },
            raw: self.raw.clone(),
        }
    }
}

/// The views of a list of transactions, in order.
pub open spec fn transaction_views(transactions: Seq<Transaction>) -> Seq<TransactionView> {
    Seq::new(transactions.len(), |i: int| transactions[i]@)
}

/// A block: its height and its transactions, in the order of the chain.
/// It is fetched when it is needed and dropped after processing.
#[derive(Debug, PartialEq)]
pub struct Block {
    pub number: BlockHeight,
    pub transactions: Vec<Transaction>,
}

/// A block as a mathematical value.
pub struct BlockView {
    pub number: BlockHeight,
    pub transactions: Seq<TransactionView>,
}

impl View for Block {
    type V = BlockView;

    open spec fn view(&self) -> BlockView {
        BlockView { number: self.number, transactions: transaction_views(self.transactions@) }
    }
}

/// What came of sending a request to the endpoint.
#[derive(Debug, PartialEq)]
pub enum Exchange {
    /// No answer came: the request could not be delivered, or the wait for
    /// the answer ran out.
    Unanswered,
    /// The endpoint answered.
    Answered { status: u16, body: String },
}

/// An exchange as a mathematical value.
pub enum ExchangeView {
    Unanswered,
    Answered { status: u16, body: Seq<char> },
}

impl View for Exchange {
    type V = ExchangeView;

    open spec fn view(&self) -> ExchangeView {
        match *self {
            Exchange::Unanswered => ExchangeView::Unanswered,
            Exchange::Answered { status, body } => ExchangeView::Answered { status, body: body@ },
        }
    }
}

/// Whether a status belongs to the success class.
pub open spec fn is_success(status: u16) -> bool {
    200 <= status <= 299
}

/// Tells a status of the success class from any other.
pub fn check_status(status: u16) -> (checked: Result<(), RpcError>)
    ensures
        checked == if is_success(status) {
            Ok::<(), RpcError>(())
        } else {
            Err::<(), RpcError>(RpcError::Status(status))
        },
{
    if 200 <= status && status <= 299 {
        Ok(())
    } else {
        Err(RpcError::Status(status))
    }
}

/// The value of a digit in a base of at most sixteen.
pub open spec fn digit_value(c: char, base: int) -> Option<int> {
    let v = if '0' <= c && c <= '9' {
        c as int - '0' as int
    } else if 'a' <= c && c <= 'f' {
        c as int - 'a' as int + 10
    } else if 'A' <= c && c <= 'F' {
        c as int - 'A' as int + 10
    } else {
        16
    };
    if v < base {
        Some(v)
    } else {
        None
    }
}

/// The number that a run of digits writes in a base, most significant digit
/// first. The empty run writes zero; a run with anything but digits in it
/// writes no number.
pub open spec fn digits_value(digits: Seq<char>, base: int) -> Option<int>
    decreases digits.len(),
{
    if digits.len() == 0 {
        Some(0)
    } else {
        match (digits_value(digits.drop_last(), base), digit_value(digits.last(), base)) {
            (Some(high), Some(low)) => Some(high * base + low),
            _ => None,
        }
    }
}

/// The block height that a text writes: hexadecimal digits after `0x` or
/// `0X`, else decimal digits. There must be a digit, nothing but digits,
/// and the number must fit.
pub open spec fn height_of_text(text: Seq<char>) -> Option<BlockHeight> {
    let digits = if has_hex_prefix(text) {
        text.subrange(2, text.len() as int)
    } else {
        text
    };
    let base = if has_hex_prefix(text) {
        16int
    } else {
        10int
    };
    if digits.len() == 0 {
        None
    } else {
        match digits_value(digits, base) {
            Some(v) if v <= u128::MAX => Some(v as u128),
            _ => None,
        }
    }
}

/// A number never shrinks when a digit is written after it, and a run of
/// digits writes a number only if each run it starts with does.
pub proof fn lemma_digits_grow(digits: Seq<char>, base: int, shorter: int)
    requires
        1 <= base <= 16,
        0 <= shorter <= digits.len(),
    ensures
        digits_value(digits, base) is Some ==> digits_value(digits.take(shorter), base) is Some,
        digits_value(digits, base) matches Some(whole) ==> 0 <= digits_value(
            digits.take(shorter),
            base,
        )->0 <= whole,
    decreases digits.len(),
{
    if shorter == digits.len() {
        assert(digits.take(shorter) =~= digits);
        if digits.len() > 0 {
            lemma_digits_grow(digits.drop_last(), base, 0);
            if digits_value(digits, base) is Some {
                let high = digits_value(digits.drop_last(), base)->0;
                assert(0 <= high);
                assert(high * base >= 0) by (nonlinear_arith)
                    requires
                        high >= 0,
                        base >= 1,
                ;
            }
        }
    } else {
        assert(digits.drop_last().take(shorter) =~= digits.take(shorter));
        lemma_digits_grow(digits.drop_last(), base, shorter);
        if digits_value(digits, base) is Some {
            let high = digits_value(digits.drop_last(), base)->0;
            lemma_digits_grow(digits.drop_last(), base, digits.len() - 1);
            assert(digits.drop_last().take(digits.len() - 1) =~= digits.drop_last());
            assert(high * base >= high) by (nonlinear_arith)
                requires
                    high >= 0,
                    base >= 1,
            ;
        }
    }
}

/// The value of one digit in a base of at most sixteen.
fn digit_of(c: char, base: u8) -> (value: Option<u8>)
    requires
        1 <= base <= 16,
    ensures
        match digit_value(c, base as int) {
            Some(v) => value == Some(v as u8) && v < base,
            None => value is None,
        },
{
    let v: u8 = if '0' <= c && c <= '9' {
        (c as u8) - ('0' as u8)
    } else if 'a' <= c && c <= 'f' {
        (c as u8) - ('a' as u8) + 10
    } else if 'A' <= c && c <= 'F' {
        (c as u8) - ('A' as u8) + 10
    } else {
        16
    };
    if v < base {
        Some(v)
    } else {
        None
    }
}

/// Reads a block height written in hexadecimal after `0x`, or in decimal.
pub fn height_from_text(text: &str) -> (height: Option<BlockHeight>)
    ensures
        height == height_of_text(text@),
{
    let n = text.unicode_len();
    let mut hex = false;
    if n >= 2 && text.get_char(0) == '0' {
        let second = text.get_char(1);
        hex = second == 'x' || second == 'X';
    }
    let digits = if hex {
        text.substring_char(2, n)
    } else {
        text
    };
    let base: u8 = if hex {
        16
    } else {
        10
    };
    if digits.unicode_len() == 0 {
        return None;
    }
    let mut value: u128 = 0;
    proof {
        assert(digits@.take(0) =~= Seq::<char>::empty());
    }
    for c in it: digits.chars()
        invariant
            it.seq() == digits@,
            base == 10 || base == 16,
            digits@.len() > 0,
            height_of_text(text@) == match digits_value(digits@, base as int) {
                Some(v) if v <= u128::MAX => Some(v as u128),
                _ => None,
            },
            digits_value(digits@.take(it.index()), base as int) == Some(value as int),
    {
        let ghost k = it.index();
        proof {
            assert(digits@.take(k + 1).drop_last() =~= digits@.take(k));
            assert(digits@.take(k + 1).last() == c);
            lemma_digits_grow(digits@, base as int, k + 1);
        }
        let low = match digit_of(c, base) {
            Some(low) => low,
            None => {
                return None;
            },
        };
        let shifted = match value.checked_mul(base as u128) {
            Some(shifted) => shifted,
            None => {
                return None;
            },
        };
        value = match shifted.checked_add(low as u128) {
            Some(sum) => sum,
            None => {
                return None;
            },
        };
    }
    assert(digits@.take(digits@.len() as int) =~= digits@);
    Some(value)
}

/// The block height in the `result` of an answer, from what the document
/// holds there: a number, or a text that writes one.
pub open spec fn height_of_parts(number: Option<u64>, text: Option<Seq<char>>) -> Result<
    BlockHeight,
    RpcError,
> {
    match (number, text) {
        (Some(n), _) => Ok(n as u128),
        (None, Some(t)) => match height_of_text(t) {
            Some(h) => Ok(h),
            None => Err(RpcError::Malformed),
        },
        (None, None) => Err(RpcError::Malformed),
    }
}

/// Reads the block height from what the `result` of an answer holds: a
/// number, or a text that writes one in hexadecimal or decimal.
pub fn height_from_parts(number: Option<u64>, text: Option<&str>) -> (height: Result<
    BlockHeight,
    RpcError,
>)
    ensures
        height == height_of_parts(
            number,
            match text {
                Some(t) => Some(t@),
                None => None,
            },
        ),
{
    match number {
        Some(n) => Ok(n as u128),
        None => match text {
            Some(t) => match height_from_text(t) {
                Some(h) => Ok(h),
                None => Err(RpcError::Malformed),
            },
            None => Err(RpcError::Malformed),
        },
    }
}

/// The height of the chain head that the body of an answer reports.
pub open spec fn latest_height_of(body: Seq<char>) -> Result<BlockHeight, RpcError> {
    match document_of(body) {
        None => Err(RpcError::Malformed),
        Some(document) => match member_of(document, "result"@) {
            None => Err(RpcError::Malformed),
            Some(result) => height_of_parts(unsigned_of(result), text_of(result)),
        },
    }
}

/// Reads the height of the chain head from the body of an answer to
/// [`LATEST_HEIGHT_METHOD`].
pub fn decode_latest_height(body: &str) -> (height: Result<BlockHeight, RpcError>)
    ensures
        height == latest_height_of(body@),
{
    let document = match parse(body) {
        Ok(document) => document,
        Err(_) => {
            return Err(RpcError::Malformed);
        },
    };
    match member(&document, "result") {
        None => Err(RpcError::Malformed),
        Some(result) => height_from_parts(unsigned(result), text(result)),
    }
}

/// The height of the chain head that an exchange brought: none without an
/// answer, none from an answer outside the success class, else what the
/// body reports.
pub open spec fn latest_height_from(exchange: ExchangeView) -> Result<BlockHeight, RpcError> {
    match exchange {
        ExchangeView::Unanswered => Err(RpcError::Transport),
        ExchangeView::Answered { status, body } => if is_success(status) {
            latest_height_of(body)
        } else {
            Err(RpcError::Status(status))
        },
    }
}

/// Reads the height of the chain head from what the request for it
/// brought.
pub fn latest_height(exchange: &Exchange) -> (height: Result<BlockHeight, RpcError>)
    ensures
        height == latest_height_from(exchange@),
{
    match exchange {
        Exchange::Unanswered => Err(RpcError::Transport),
        Exchange::Answered { status, body } => match check_status(*status) {
            Ok(()) => decode_latest_height(body.as_str()),
            Err(e) => Err(e),
        },
    }
}

/// The transaction made of what a document holds of it: its hash, or the
/// empty text if it has none; its sender, if it has one; and the
/// transaction as it was written.
pub open spec fn transaction_of_parts(
    hash: Option<Seq<char>>,
    sender: Option<Seq<char>>,
    raw: Seq<char>,
) -> TransactionView {
    TransactionView {
        hash: match hash {
            Some(h) => h,
            None => Seq::empty(),
        },
        sender_address: sender,
        raw,
    }
}

impl Transaction {
    /// Makes a transaction of what a document holds of it. A transaction
    /// without a hash gets the empty text for one, and a transaction
    /// without a sender stays without.
    pub fn from_parts(hash: Option<&str>, sender: Option<&str>, raw: String) -> (transaction:
        Transaction)
        ensures
            transaction@ == transaction_of_parts(
                match hash {
                    Some(h) => Some(h@),
                    None => None,
                },
                match sender {
                    Some(s) => Some(s@),
                    None => None,
                },
                raw@,
            ),
    {
        Transaction {
            hash: match hash {
                Some(h) => String::from_str(h),
                None => String::new(),
            },
            sender_address: match sender {
                Some(s) => Some(String::from_str(s)),
                None => None,
            },
            raw,
        }
    }
}

/// The text of the member of an object under a key, if it has one that is
/// a string.
pub open spec fn text_member_of(item: serde_json::Value, key: Seq<char>) -> Option<Seq<char>> {
    match member_of(item, key) {
        Some(m) => text_of(m),
        None => None,
    }
}

/// The transaction that an element of `transactions` is. Every element is
/// one, whatever it holds.
pub open spec fn transaction_of(item: serde_json::Value) -> TransactionView {
    transaction_of_parts(
        text_member_of(item, "transaction_hash"@),
        text_member_of(item, "sender_address"@),
        rendering_of(item),
    )
}

/// The transactions that the elements of `transactions` are, in order.
pub open spec fn transactions_of_items(items: Seq<serde_json::Value>) -> Seq<TransactionView> {
    Seq::new(items.len(), |i: int| transaction_of(items[i]))
}

/// The elements of the array `result.transactions` of a body, if the body
/// is a document that has such an array.
pub open spec fn transaction_items(body: Seq<char>) -> Option<Seq<serde_json::Value>> {
    match document_of(body) {
        None => None,
        Some(document) => match member_of(document, "result"@) {
            None => None,
            Some(result) => match member_of(result, "transactions"@) {
                None => None,
                Some(list) => items_of(list),
            },
        },
    }
}

/// The transactions of the block that the body of an answer reports: the
/// elements of `result.transactions`, in order. The body is malformed
/// exactly when it has no such array. A block without transactions is a
/// block like any other.
pub open spec fn transactions_of(body: Seq<char>) -> Result<Seq<TransactionView>, RpcError> {
    match transaction_items(body) {
        Some(items) => Ok(transactions_of_items(items)),
        None => Err(RpcError::Malformed),
    }
}

/// The text of the member of an object under a key.
fn text_member<'a>(item: &'a serde_json::Value, key: &str) -> (found: Option<&'a str>)
    ensures
        match found {
            Some(t) => text_member_of(*item, key@) == Some(t@),
            None => text_member_of(*item, key@) is None,
        },
{
    match member(item, key) {
        Some(m) => text(m),
        None => None,
    }
}

/// Reads the transactions of a block from the body of an answer to
/// [`BLOCK_METHOD`], in the order in which the answer lists them. It fails
/// exactly on a body without an array `result.transactions`.
pub fn decode_transactions(body: &str) -> (transactions: Result<Vec<Transaction>, RpcError>)
    ensures
        match transactions_of(body@) {
            Ok(expected) => transactions matches Ok(found) && transaction_views(found@)
                == expected,
            Err(e) => transactions matches Err(f) && f == e,
        },
        transactions is Err <==> transaction_items(body@) is None,
{
    let document = match parse(body) {
        Ok(document) => document,
        Err(_) => {
            return Err(RpcError::Malformed);
        },
    };
    let result = match member(&document, "result") {
        Some(result) => result,
        None => {
            return Err(RpcError::Malformed);
        },
    };
    let list = match member(result, "transactions") {
        Some(list) => list,
        None => {
            return Err(RpcError::Malformed);
        },
    };
    let elements = match items(list) {
        Some(elements) => elements,
        None => {
            return Err(RpcError::Malformed);
        },
    };
    let mut found: Vec<Transaction> = Vec::new();
    let mut i: usize = 0;
    while i < elements.len()
        invariant
            i <= elements.len(),
            found.len() == i,
            forall|j: int| 0 <= j < i ==> transaction_of(elements@[j]) == (#[trigger] found@[j])@,
        decreases elements.len() - i,
    {
        let item = &elements[i];
        found.push(
            Transaction::from_parts(
                text_member(item, "transaction_hash"),
                text_member(item, "sender_address"),
                rendering(item),
            ),
        );
        i += 1;
    }
    assert(transaction_views(found@) =~= transactions_of_items(elements@));
    Ok(found)
}

/// The block of height `number` that an exchange brought: none without an
/// answer, none from an answer outside the success class, none from a body
/// without an array `result.transactions`, else the block with the
/// transactions that the body lists.
pub open spec fn block_from(number: BlockHeight, exchange: ExchangeView) -> Result<
    BlockView,
    RpcError,
> {
    match exchange {
        ExchangeView::Unanswered => Err(RpcError::Transport),
        ExchangeView::Answered { status, body } => if is_success(status) {
            match transactions_of(body) {
                Ok(transactions) => Ok(BlockView { number, transactions }),
                Err(e) => Err(e),
            }
        } else {
            Err(RpcError::Status(status))
        },
    }
}

/// Reads the block of height `number` from what the request for it
/// brought.
pub fn read_block(number: BlockHeight, exchange: &Exchange) -> (block: Result<Block, RpcError>)
    ensures
        match block_from(number, exchange@) {
            Ok(expected) => block matches Ok(found) && found@ == expected,
            Err(e) => block matches Err(f) && f == e,
        },
        block is Err <==> match exchange@ {
            ExchangeView::Unanswered => true,
            ExchangeView::Answered { status, body } => !is_success(status) || transaction_items(
                body,
            ) is None,
        },
{
    match exchange {
        Exchange::Unanswered => Err(RpcError::Transport),
        Exchange::Answered { status, body } => match check_status(*status) {
            Ok(()) => match decode_transactions(body.as_str()) {
                Ok(transactions) => Ok(Block { number, transactions }),
                Err(e) => Err(e),
            },
            Err(e) => Err(e),
        },
    }
}

/// The decimal digit for a number below ten.
pub open spec fn digit_char(d: int) -> char {
    ('0' as int + d) as char
}

/// A number written in decimal, without zeros in front.
pub open spec fn decimal_of(n: nat) -> Seq<char>
    decreases n,
{
    if n < 10 {
        seq![digit_char(n as int)]
    } else {
        decimal_of(n / 10).push(digit_char((n % 10) as int))
    }
}

/// A height written in decimal reads back as that height.
pub proof fn lemma_decimal_reads_back(n: u128)
    ensures
        height_of_text(decimal_of(n as nat)) == Some(n),
{
    lemma_decimal_value(n as nat);
    if n >= 10 {
        // The second character is a digit, so the text has no prefix.
        lemma_decimal_digits(n as nat, 1);
    }
}

/// Decimal text is made of decimal digits only.
proof fn lemma_decimal_digits(n: nat, i: int)
    requires
        0 <= i < decimal_of(n).len(),
    ensures
        '0' <= decimal_of(n)[i] <= '9',
    decreases n,
{
    if n >= 10 {
        if i < decimal_of(n / 10).len() {
            lemma_decimal_digits(n / 10, i);
        }
    }
}

/// Decimal text is not empty and writes the number it was made of.
proof fn lemma_decimal_value(n: nat)
    ensures
        decimal_of(n).len() >= 1,
        n >= 10 ==> decimal_of(n).len() >= 2,
        digits_value(decimal_of(n), 10) == Some(n as int),
    decreases n,
{
    let text = decimal_of(n);
    if n < 10 {
        assert(text.drop_last() =~= Seq::<char>::empty());
        assert(digits_value(text.drop_last(), 10) == Some(0int));
        assert(digit_value(text.last(), 10) == Some(n as int));
    } else {
        lemma_decimal_value(n / 10);
        assert(text.drop_last() =~= decimal_of(n / 10));
        assert(text.last() == digit_char((n % 10) as int));
        assert(digit_value(text.last(), 10) == Some((n % 10) as int));
        assert((n / 10) * 10 + n % 10 == n);
    }
}

/// The text of one decimal digit.
fn digit_text(d: u8) -> (text: &'static str)
    requires
        d < 10,
    ensures
        text@ == seq![digit_char(d as int)],
{
    proof {
        reveal_strlit("0");
        reveal_strlit("1");
        reveal_strlit("2");
        reveal_strlit("3");
        reveal_strlit("4");
        reveal_strlit("5");
        reveal_strlit("6");
        reveal_strlit("7");
        reveal_strlit("8");
        reveal_strlit("9");
    }
    let text = match d {
        0 => "0",
        1 => "1",
        2 => "2",
        3 => "3",
        4 => "4",
        5 => "5",
        6 => "6",
        7 => "7",
        8 => "8",
        _ => "9",
    };
    assert(text@ =~= seq![digit_char(d as int)]);
    text
}

/// Writes a height in decimal.
pub fn decimal_text(n: BlockHeight) -> (text: String)
    ensures
        text@ == decimal_of(n as nat),
    decreases n,
{
    if n < 10 {
        String::from_str(digit_text(n as u8))
    } else {
        let mut text = decimal_text(n / 10);
        text.append(digit_text((n % 10) as u8));
        assert(text@ =~= decimal_of((n / 10) as nat).push(digit_char((n % 10) as int)));
        text
    }
}

/// The body of a request: the envelope of the protocol around a method
/// and its parameters.
pub open spec fn request_text(method: Seq<char>, params: Seq<char>) -> Seq<char> {
    "{\"jsonrpc\":\"2.0\",\"method\":\""@ + method + "\",\"params\":"@ + params + ",\"id\":0}"@
}

/// The parameters that name a block by its height.
pub open spec fn block_params_text(number: BlockHeight) -> Seq<char> {
    "{\"block_id\":{\"block_number\":"@ + decimal_of(number as nat) + "}}"@
}

/// The body of the request for the height of the chain head, which takes
/// no parameters.
pub open spec fn latest_height_request_text() -> Seq<char> {
    request_text(LATEST_HEIGHT_METHOD@, "[]"@)
}

/// The body of the request for the block of a height.
pub open spec fn block_request_text(number: BlockHeight) -> Seq<char> {
    request_text(BLOCK_METHOD@, block_params_text(number))
}

/// Writes the body of a request.
fn request(method: &str, params: &str) -> (body: String)
    ensures
        body@ == request_text(method@, params@),
{
    let mut body = String::from_str("{\"jsonrpc\":\"2.0\",\"method\":\"");
    body.append(method);
    body.append("\",\"params\":");
    body.append(params);
    body.append(",\"id\":0}");
    body
}

/// Writes the body of the request for the height of the chain head.
pub fn latest_height_request() -> (body: String)
    ensures
        body@ == latest_height_request_text(),
{
    request(LATEST_HEIGHT_METHOD, "[]")
}

/// Writes the body of the request for the block of a height.
pub fn block_request(number: BlockHeight) -> (body: String)
    ensures
        body@ == block_request_text(number),
{
    let mut params = String::from_str("{\"block_id\":{\"block_number\":");
    params.append(decimal_text(number).as_str());
    params.append("}}");
    request(BLOCK_METHOD, params.as_str())
}

} // verus!
