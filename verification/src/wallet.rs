//! The wallet: per-currency balances, a transaction history, and signing of
//! transfers with the wallet's own ed25519 key.
//!
//! Amounts are in each currency's smallest unit. The wallet is an external
//! collaborator of the coordination core: the core only calls through this
//! interface and never owns ledger truth.

use vstd::prelude::*;
use vstd::pervasive::VecAdditionalExecFns;
use vstd::string::StringExecFns;

use crate::types::{CoreError, clone_bytes, signatures_view, clone_signatures};
use crate::crypto::{
    pk_of, sig_of, sig_checks, base64_of, hex_of, derive_public_key, sign_bytes, verify_bytes,
    base64_encode, hex_encode, random_seed, new_uuid_string,
};
use crate::codec::{
    enc_str, enc_u64, enc_bytes, write_str, write_u64, write_bytes, read_string, read_bytes,
    read_u64, rd_str, rd_bytes, rd_u64, lemma_rd_str_of_enc, lemma_rd_bytes_of_enc,
    lemma_rd_u64_of_enc, lemma_split_subrange,
};
use crate::escrow::{has_signer, sig_val_of};
use crate::text::{str_eq, dec_of, pow10, pow10_u64, u64_to_string, dec_padded_trimmed,
    zero_pad, trim_trailing_zeros};

verus! {

/// The currencies the wallet can hold.
#[derive(Debug, Clone, Copy, PartialEq, Eq, Structural)]
pub enum Currency {
    BTC,
    ETH,
    USDC,
    LTC,
    XMR,
    DOGE,
}

impl Currency {
    /// The ticker symbol.
    pub fn symbol(&self) -> (r: &'static str)
        ensures
            r@ == self.spec_symbol(),
    {
        match self {
            Currency::BTC => "BTC",
            Currency::ETH => "ETH",
            Currency::USDC => "USDC",
            Currency::LTC => "LTC",
            Currency::XMR => "XMR",
            Currency::DOGE => "DOGE",
        }
    }

    /// The ticker symbol each currency carries.
    pub open spec fn spec_symbol(&self) -> Seq<char> {
        match self {
            Currency::BTC => "BTC"@,
            Currency::ETH => "ETH"@,
            Currency::USDC => "USDC"@,
            Currency::LTC => "LTC"@,
            Currency::XMR => "XMR"@,
            Currency::DOGE => "DOGE"@,
        }
    }

    /// The full name.
    pub fn name(&self) -> (r: &'static str)
        ensures
            r@ == self.spec_name(),
    {
        match self {
            Currency::BTC => "Bitcoin",
            Currency::ETH => "Ethereum",
            Currency::USDC => "USD Coin",
            Currency::LTC => "Litecoin",
            Currency::XMR => "Monero",
            Currency::DOGE => "Dogecoin",
        }
    }

    /// The full name each currency carries.
    pub open spec fn spec_name(&self) -> Seq<char> {
        match self {
            Currency::BTC => "Bitcoin"@,
            Currency::ETH => "Ethereum"@,
            Currency::USDC => "USD Coin"@,
            Currency::LTC => "Litecoin"@,
            Currency::XMR => "Monero"@,
            Currency::DOGE => "Dogecoin"@,
        }
    }

    /// How many decimal places the smallest unit sits below one coin.
    pub fn decimals(&self) -> (r: u8)
        ensures
            r == self.spec_decimals(),
    {
        match self {
            Currency::BTC => 8,
            Currency::ETH => 18,
            Currency::USDC => 6,
            Currency::LTC => 8,
            Currency::XMR => 12,
            Currency::DOGE => 8,
        }
    }

    /// The decimal places each currency carries.
    pub open spec fn spec_decimals(&self) -> u8 {
        match self {
            Currency::BTC => 8,
            Currency::ETH => 18,
            Currency::USDC => 6,
            Currency::LTC => 8,
            Currency::XMR => 12,
            Currency::DOGE => 8,
        }
    }

    /// The balance a fresh wallet starts with, in smallest units.
    pub fn initial_balance(&self) -> (r: u64)
        ensures
            r == self.spec_initial_balance(),
    {
        match self {
            Currency::BTC => 0,
            Currency::ETH => 0,
            Currency::USDC => 1000,
            Currency::LTC => 0,
            Currency::XMR => 0,
            Currency::DOGE => 10000,
        }
    }

    /// The starting balance each currency carries.
    pub open spec fn spec_initial_balance(&self) -> u64 {
        match self {
            Currency::BTC => 0,
            Currency::ETH => 0,
            Currency::USDC => 1000,
            Currency::LTC => 0,
            Currency::XMR => 0,
            Currency::DOGE => 10000,
        }
    }

    /// Renders an amount of smallest units as whole coins: the whole part,
    /// a fractional part with trailing zeros stripped (omitted entirely when
    /// zero), and the ticker symbol.
    pub fn format_amount(&self, amount: u64) -> (r: String)
        ensures
            r@ == spec_format_amount(*self, amount),
    {
        let decimals = self.decimals();
        let d = pow10_u64(decimals);
        let whole = amount / d;
        let frac = amount % d;
        let whole_str = u64_to_string(whole);
        if frac == 0 {
            whole_str.concat(" ").concat(self.symbol())
        } else {
            proof {
                assert((frac as int) < pow10(decimals as nat));
            }
            let frac_str = dec_padded_trimmed(frac, decimals as usize);
            whole_str.concat(".").concat(frac_str.as_str()).concat(" ").concat(self.symbol())
        }
    }
}

/// The rendering of an amount of smallest units as whole coins.
pub open spec fn spec_format_amount(c: Currency, amount: u64) -> Seq<char> {
    let d = pow10(c.spec_decimals() as nat);
    let whole = (amount as int) / d;
    let frac = (amount as int) % d;
    if frac == 0 {
        dec_of(whole as nat) + " "@ + c.spec_symbol()
    } else {
        dec_of(whole as nat) + "."@ + trim_trailing_zeros(
            zero_pad(dec_of(frac as nat), c.spec_decimals() as int),
        ) + " "@ + c.spec_symbol()
    }
}

/// The byte tag of a currency, for signed messages.
pub open spec fn currency_tag(c: Currency) -> u8 {
    match c {
        Currency::BTC => 0,
        Currency::ETH => 1,
        Currency::USDC => 2,
        Currency::LTC => 3,
        Currency::XMR => 4,
        Currency::DOGE => 5,
    }
}

/// One tag byte.
pub open spec fn enc_currency(c: Currency) -> Seq<u8> {
    seq![currency_tag(c)]
}

/// Appends the tag byte of a currency.
fn write_currency(out: &mut Vec<u8>, c: Currency)
    ensures
        final(out)@ == old(out)@ + enc_currency(c),
{
    let t: u8 = match c {
        Currency::BTC => 0,
        Currency::ETH => 1,
        Currency::USDC => 2,
        Currency::LTC => 3,
        Currency::XMR => 4,
        Currency::DOGE => 5,
    };
    out.push(t);
    proof {
        assert(out@ =~= old(out)@ + enc_currency(c));
    }
}

/// The byte message a transfer signs: identifier, sender, receiver, amount,
/// and currency.
pub open spec fn tx_message(
    id: Seq<char>,
    from: Seq<char>,
    to: Seq<char>,
    amount: u64,
    currency: Currency,
) -> Seq<u8> {
    enc_str(id) + enc_str(from) + enc_str(to) + enc_u64(amount) + enc_currency(currency)
}

/// The byte message an outgoing send signs: the transfer message, then the
/// fee.
pub open spec fn send_message(
    id: Seq<char>,
    from: Seq<char>,
    to: Seq<char>,
    amount: u64,
    currency: Currency,
    fee: u64,
) -> Seq<u8> {
    tx_message(id, from, to, amount, currency) + enc_u64(fee)
}

/// Where a transfer stands.
#[derive(Debug, Clone, Copy, PartialEq, Eq, Structural)]
pub enum TransactionStatus {
    Pending,
    Confirmed,
    Failed,
    Cancelled,
}

/// A transfer record.
#[derive(Debug)]
pub struct Transaction {
    pub id: String,
    pub from: String,
    pub to: String,
    pub amount: u64,
    pub currency: Currency,
    pub timestamp: u64,
    pub signature: Vec<u8>,
    pub status: TransactionStatus,
    pub fee: u64,
    pub block_height: Option<u64>,
    pub confirmations: u32,
    pub memo: Option<String>,
}

/// Mathematical image of a [`Transaction`].
pub struct TransactionView {
    pub id: Seq<char>,
    pub from: Seq<char>,
    pub to: Seq<char>,
    pub amount: u64,
    pub currency: Currency,
    pub timestamp: u64,
    pub signature: Seq<u8>,
    pub status: TransactionStatus,
    pub fee: u64,
    pub block_height: Option<u64>,
    pub confirmations: u32,
    pub memo: Option<Seq<char>>,
}

/// The view of an optional text field.
pub open spec fn memo_view(m: Option<String>) -> Option<Seq<char>> {
    match m {
        Some(s) => Some(s@),
        None => None,
    }
}

impl View for Transaction {
    type V = TransactionView;

    open spec fn view(&self) -> TransactionView {
        TransactionView {
            id: self.id@,
            from: self.from@,
            to: self.to@,
            amount: self.amount,
            currency: self.currency,
            timestamp: self.timestamp,
            signature: self.signature@,
            status: self.status,
            fee: self.fee,
            block_height: self.block_height,
            confirmations: self.confirmations,
            memo: memo_view(self.memo),
        }
    }
}

/// Copies an optional text field; the copy views the same.
fn clone_memo(m: &Option<String>) -> (r: Option<String>)
    ensures
        memo_view(r) == memo_view(*m),
{
    match m {
        Some(s) => Some(s.clone()),
        None => None,
    }
}

impl Clone for Transaction {
    fn clone(&self) -> (r: Self)
        ensures
            r@ == self@,
    {
        Transaction {
            id: self.id.clone(),
            from: self.from.clone(),
            to: self.to.clone(),
            amount: self.amount,
            currency: self.currency,
            timestamp: self.timestamp,
            signature: clone_bytes(&self.signature),
            status: self.status,
            fee: self.fee,
            block_height: self.block_height,
            confirmations: self.confirmations,
            memo: clone_memo(&self.memo),
        }
    }
}

/// A request to send funds.
#[derive(Debug)]
pub struct SendRequest {
    pub to_address: String,
    pub amount: u64,
    pub currency: Currency,
    pub memo: Option<String>,
    pub fee: Option<u64>,
}

/// The outcome of a send.
#[derive(Debug)]
pub struct SendResponse {
    pub transaction_id: String,
    pub success: bool,
    pub message: String,
    pub fee: u64,
}

/// A wallet summary surfaced to the API boundary.
#[derive(Debug)]
pub struct WalletInfo {
    pub did: String,
    pub public_key: String,
    pub addresses: Vec<(String, String)>,
    pub balances: Vec<(String, String)>,
    pub total_transactions: usize,
    pub created_at: u64,
    pub last_activity: u64,
}

/// The fixed order in which the wallet lists its currencies.
pub open spec fn currency_order() -> Seq<Currency> {
    seq![
        Currency::BTC,
        Currency::ETH,
        Currency::USDC,
        Currency::LTC,
        Currency::XMR,
        Currency::DOGE,
    ]
}

/// The position of a currency in the wallet's fixed order.
pub open spec fn currency_index(c: Currency) -> int {
    match c {
        Currency::BTC => 0,
        Currency::ETH => 1,
        Currency::USDC => 2,
        Currency::LTC => 3,
        Currency::XMR => 4,
        Currency::DOGE => 5,
    }
}

/// The views of a transaction list.
pub open spec fn views_of_txs(s: Seq<Transaction>) -> Seq<TransactionView> {
    s.map_values(|t: Transaction| t@)
}

/// The address the wallet derives for a currency from a public key: a
/// currency-specific prefix, then the hex of the key's leading bytes.
pub open spec fn spec_address(c: Currency, pk: Seq<u8>) -> Seq<char>
    recommends
        pk.len() == 32,
{
    match c {
        Currency::BTC => "1"@ + hex_of(pk.take(20)),
        Currency::ETH => "0x"@ + hex_of(pk.take(20)),
        Currency::USDC => "0x"@ + hex_of(pk.take(20)),
        Currency::LTC => "L"@ + hex_of(pk.take(20)),
        Currency::XMR => "4"@ + hex_of(pk.take(32)),
        Currency::DOGE => "D"@ + hex_of(pk.take(20)),
    }
}

/// Derives the address of a currency from a public key.
fn generate_address(c: Currency, pk: &Vec<u8>) -> (r: String)
    requires
        pk@.len() == 32,
    ensures
        r@ == spec_address(c, pk@),
{
    let take: usize = match c {
        Currency::XMR => 32,
        _ => 20,
    };
    let mut lead: Vec<u8> = Vec::new();
    let mut i: usize = 0;
    while i < take
        invariant
            take <= pk@.len(),
            i <= take,
            lead@ == pk@.take(i as int),
        decreases take - i,
    {
        lead.push(pk[i]);
        i += 1;
        proof {
            assert(lead@ =~= pk@.take(i as int));
        }
    }
    let hex = hex_encode(lead.as_slice());
    match c {
        Currency::BTC => String::from_str("1").concat(hex.as_str()),
        Currency::ETH => String::from_str("0x").concat(hex.as_str()),
        Currency::USDC => String::from_str("0x").concat(hex.as_str()),
        Currency::LTC => String::from_str("L").concat(hex.as_str()),
        Currency::XMR => String::from_str("4").concat(hex.as_str()),
        Currency::DOGE => String::from_str("D").concat(hex.as_str()),
    }
}

/// Some recorded transaction carries the identifier.
pub open spec fn has_tx(s: Seq<TransactionView>, id: Seq<char>) -> bool {
    exists|i: int| 0 <= i < s.len() && s[i].id == id
}

/// The wallet.
pub struct Wallet {
    pub did: String,
    pub secret_key: Vec<u8>,
    pub balances: Vec<(Currency, u64)>,
    pub transactions: Vec<Transaction>,
    pub preferred_currency: Currency,
    pub addresses: Vec<(Currency, String)>,
    pub created_at: u64,
    pub last_activity: u64,
}

/// Mathematical image of the wallet.
pub struct WalletView {
    pub did: Seq<char>,
    pub secret_key: Seq<u8>,
    pub balances: Seq<(Currency, u64)>,
    pub transactions: Seq<TransactionView>,
    pub preferred_currency: Currency,
    pub addresses: Seq<(Currency, Seq<char>)>,
    pub created_at: u64,
    pub last_activity: u64,
}

impl View for Wallet {
    type V = WalletView;

    open spec fn view(&self) -> WalletView {
        WalletView {
            did: self.did@,
            secret_key: self.secret_key@,
            balances: self.balances@,
            transactions: views_of_txs(self.transactions@),
            preferred_currency: self.preferred_currency,
            addresses: self.addresses@.map_values(|p: (Currency, String)| (p.0, p.1@)),
            created_at: self.created_at,
            last_activity: self.last_activity,
        }
    }
}

/// The stored balance of one currency, under the wallet's fixed order.
pub open spec fn balance_of(v: WalletView, c: Currency) -> u64 {
    v.balances[currency_index(c)].1
}

/// The stored address of one currency, under the wallet's fixed order.
pub open spec fn address_of(v: WalletView, c: Currency) -> Seq<char> {
    v.addresses[currency_index(c)].1
}

impl Wallet {
    /// Internal consistency: a 32-byte seed, and one balance and address per
    /// currency, in the fixed order, with addresses derived from the key.
    pub open spec fn wf(&self) -> bool {
        &&& self@.secret_key.len() == 32
        &&& self@.balances.len() == 6
        &&& forall|i: int| 0 <= i < 6 ==> (#[trigger] self@.balances[i]).0 == currency_order()[i]
        &&& self@.addresses.len() == 6
        &&& forall|i: int|
            0 <= i < 6 ==> (#[trigger] self@.addresses[i]).0 == currency_order()[i]
                && self@.addresses[i].1 == spec_address(
                currency_order()[i],
                pk_of(self@.secret_key),
            )
    }

    /// A fresh wallet for an identity: a new key from the operating
    /// system's entropy source, the standard starting balances, and one
    /// derived address per currency.
    pub fn new(did: String, now: u64) -> (r: Self)
        ensures
            r.wf(),
            r@.did == did@,
            r@.transactions.len() == 0,
            r@.preferred_currency == Currency::USDC,
            r@.created_at == now,
            r@.last_activity == now,
            forall|c: Currency| #[trigger] balance_of(r@, c) == c.spec_initial_balance(),
    {
        let secret_key = random_seed();
        Self::build(did, secret_key, now)
    }

    /// Rebuilds a wallet from an exported 32-byte seed; any other length is
    /// rejected. Balances restart from the standard starting amounts.
    pub fn import_private_key(secret_key_bytes: Vec<u8>, did: String, now: u64) -> (r: Result<
        Self,
        CoreError,
    >)
        ensures
            r is Ok <==> secret_key_bytes@.len() == 32,
            r is Err ==> r == Result::<Self, CoreError>::Err(CoreError::InvalidKeyLength),
            r matches Ok(w) ==> ({
                &&& w.wf()
                &&& w@.did == did@
                &&& w@.secret_key == secret_key_bytes@
                &&& w@.transactions.len() == 0
                &&& w@.preferred_currency == Currency::USDC
                &&& w@.created_at == now
                &&& forall|c: Currency| #[trigger] balance_of(w@, c) == c.spec_initial_balance()
            }),
    {
        if secret_key_bytes.len() != 32 {
            return Err(CoreError::InvalidKeyLength);
        }
        Ok(Self::build(did, secret_key_bytes, now))
    }

    /// Lays a wallet out around a 32-byte seed.
    fn build(did: String, secret_key: Vec<u8>, now: u64) -> (r: Self)
        requires
            secret_key@.len() == 32,
        ensures
            r.wf(),
            r@.did == did@,
            r@.secret_key == secret_key@,
            r@.transactions.len() == 0,
            r@.preferred_currency == Currency::USDC,
            r@.created_at == now,
            r@.last_activity == now,
            forall|c: Currency| #[trigger] balance_of(r@, c) == c.spec_initial_balance(),
    {
        let public_key = derive_public_key(secret_key.as_slice());
        let mut balances: Vec<(Currency, u64)> = Vec::new();
        balances.push((Currency::BTC, 0));
        balances.push((Currency::ETH, 0));
        balances.push((Currency::USDC, 1000));
        balances.push((Currency::LTC, 0));
        balances.push((Currency::XMR, 0));
        balances.push((Currency::DOGE, 10000));
        let mut addresses: Vec<(Currency, String)> = Vec::new();
        addresses.push((Currency::BTC, generate_address(Currency::BTC, &public_key)));
        addresses.push((Currency::ETH, generate_address(Currency::ETH, &public_key)));
        addresses.push((Currency::USDC, generate_address(Currency::USDC, &public_key)));
        addresses.push((Currency::LTC, generate_address(Currency::LTC, &public_key)));
        addresses.push((Currency::XMR, generate_address(Currency::XMR, &public_key)));
        addresses.push((Currency::DOGE, generate_address(Currency::DOGE, &public_key)));
        let r = Wallet {
            did,
            secret_key,
            balances,
            transactions: Vec::new(),
            preferred_currency: Currency::USDC,
            addresses,
            created_at: now,
            last_activity: now,
        };
        proof {
            assert(r@.transactions =~= Seq::<TransactionView>::empty());
            assert forall|c: Currency| #[trigger] balance_of(r@, c)
                == c.spec_initial_balance() by {
                match c {
                    Currency::BTC => {},
                    Currency::ETH => {},
                    Currency::USDC => {},
                    Currency::LTC => {},
                    Currency::XMR => {},
                    Currency::DOGE => {},
                }
            }
        }
        r
    }

    /// Switches the preferred currency.
    pub fn set_preferred_currency(&mut self, currency: Currency, now: u64)
        ensures
            *final(self) == (Wallet {
                preferred_currency: currency,
                last_activity: now,
                ..*old(self)
            }),
    {
        self.preferred_currency = currency;
        self.last_activity = now;
    }

    /// The preferred currency.
    pub fn get_preferred_currency(&self) -> (r: &Currency)
        ensures
            r == self.preferred_currency,
    {
        &self.preferred_currency
    }

    /// This wallet's public key bytes, derived from its seed.
    pub fn get_public_key(&self) -> (r: Vec<u8>)
        requires
            self.wf(),
        ensures
            r@ == pk_of(self@.secret_key),
            r@.len() == 32,
    {
        derive_public_key(self.secret_key.as_slice())
    }

    /// This wallet's public key, base64-encoded.
    pub fn get_public_key_base64(&self) -> (r: String)
        requires
            self.wf(),
        ensures
            r@ == base64_of(pk_of(self@.secret_key)),
    {
        let pk = self.get_public_key();
        base64_encode(pk.as_slice())
    }

    /// This wallet's secret seed, base64-encoded.
    pub fn get_private_key_base64(&self) -> (r: String)
        ensures
            r@ == base64_of(self@.secret_key),
    {
        base64_encode(self.secret_key.as_slice())
    }

    /// The exec index of a currency in the wallet's fixed order.
    fn index_of(currency: &Currency) -> (r: usize)
        ensures
            r == currency_index(*currency),
    {
        match currency {
            Currency::BTC => 0,
            Currency::ETH => 1,
            Currency::USDC => 2,
            Currency::LTC => 3,
            Currency::XMR => 4,
            Currency::DOGE => 5,
        }
    }

    /// The stored address for a currency.
    pub fn get_address(&self, currency: &Currency) -> (r: String)
        requires
            self.wf(),
        ensures
            r@ == address_of(self@, *currency),
            r@ == spec_address(*currency, pk_of(self@.secret_key)),
    {
        let i = Self::index_of(currency);
        proof {
            assert(currency_order()[currency_index(*currency)] == *currency);
            assert(self@.addresses[i as int].1 == spec_address(
                *currency,
                pk_of(self@.secret_key),
            ));
            assert(self@.addresses[i as int].1 == self.addresses@[i as int].1@);
        }
        self.addresses[i].1.clone()
    }

    /// Every stored address, in the fixed currency order.
    pub fn get_all_addresses(&self) -> (r: Vec<(Currency, String)>)
        ensures
            r@.map_values(|p: (Currency, String)| (p.0, p.1@)) == self@.addresses,
    {
        let mut out: Vec<(Currency, String)> = Vec::new();
        let mut i: usize = 0;
        while i < self.addresses.len()
            invariant
                i <= self.addresses@.len(),
                out@.len() == i,
                forall|j: int|
                    0 <= j < i ==> out@[j].0 == self.addresses@[j].0 && out@[j].1@
                        == self.addresses@[j].1@,
            decreases self.addresses@.len() - i,
        {
            let addr = self.addresses[i].1.clone();
            out.push((self.addresses[i].0, addr));
            i += 1;
        }
        proof {
            assert(out@.map_values(|p: (Currency, String)| (p.0, p.1@)) =~= self@.addresses);
        }
        out
    }

    /// The stored balance of a currency, in smallest units.
    pub fn get_balance(&self, currency: &Currency) -> (r: u64)
        requires
            self.wf(),
        ensures
            r == balance_of(self@, *currency),
    {
        let i = Self::index_of(currency);
        self.balances[i].1
    }

    /// Every stored balance, in the fixed currency order.
    pub fn get_all_balances(&self) -> (r: Vec<(Currency, u64)>)
        ensures
            r@ == self@.balances,
    {
        let mut out: Vec<(Currency, u64)> = Vec::new();
        let mut i: usize = 0;
        while i < self.balances.len()
            invariant
                i <= self.balances@.len(),
                out@ == self.balances@.take(i as int),
            decreases self.balances@.len() - i,
        {
            out.push(self.balances[i]);
            i += 1;
            proof {
                assert(out@ =~= self.balances@.take(i as int));
            }
        }
        proof {
            assert(self.balances@.take(self.balances@.len() as int) =~= self.balances@);
        }
        out
    }

    /// Credits a currency.
    pub fn add_funds(&mut self, currency: Currency, amount: u64, now: u64)
        requires
            old(self).wf(),
            balance_of(old(self)@, currency) + amount <= u64::MAX,
        ensures
            final(self).wf(),
            balance_of(final(self)@, currency) == balance_of(old(self)@, currency) + amount,
            forall|c: Currency|
                c != currency ==> #[trigger] balance_of(final(self)@, c) == balance_of(
                    old(self)@,
                    c,
                ),
            final(self)@.transactions == old(self)@.transactions,
            final(self)@.addresses == old(self)@.addresses,
            final(self)@.did == old(self)@.did,
            final(self)@.secret_key == old(self)@.secret_key,
            final(self)@.last_activity == now,
    {
        let i = Self::index_of(&currency);
        let current = self.balances[i].1;
        proof {
            assert(self@.balances[i as int].0 == currency_order()[i as int]);
        }
        self.balances.set(i, (self.balances[i].0, current + amount));
        self.last_activity = now;
        proof {
            assert forall|c: Currency| c != currency implies #[trigger] balance_of(self@, c)
                == balance_of(old(self)@, c) by {
                assert(currency_index(c) != i as int);
            }
            assert forall|j: int| 0 <= j < 6 implies (#[trigger] self@.balances[j]).0
                == currency_order()[j] by {
                if j != i {
                    assert(self@.balances[j] == old(self)@.balances[j]);
                }
            }
        }
    }

    /// Debits a currency; a balance too small is reported and nothing
    /// changes.
    pub fn remove_funds(&mut self, currency: &Currency, amount: u64, now: u64) -> (r: Result<
        (),
        CoreError,
    >)
        requires
            old(self).wf(),
        ensures
            final(self).wf(),
            r is Ok <==> balance_of(old(self)@, *currency) >= amount,
            r is Err ==> r == Result::<(), CoreError>::Err(CoreError::InsufficientBalance)
                && *final(self) == *old(self),
            r is Ok ==> ({
                &&& balance_of(final(self)@, *currency) == balance_of(old(self)@, *currency)
                    - amount
                &&& (forall|c: Currency|
                    c != *currency ==> #[trigger] balance_of(final(self)@, c) == balance_of(
                        old(self)@,
                        c,
                    ))
                &&& final(self)@.transactions == old(self)@.transactions
                &&& final(self)@.addresses == old(self)@.addresses
                &&& final(self)@.did == old(self)@.did
                &&& final(self)@.secret_key == old(self)@.secret_key
                &&& final(self)@.last_activity == now
            }),
    {
        let i = Self::index_of(currency);
        let current = self.balances[i].1;
        if current < amount {
            return Err(CoreError::InsufficientBalance);
        }
        proof {
            assert(self@.balances[i as int].0 == currency_order()[i as int]);
        }
        self.balances.set(i, (self.balances[i].0, current - amount));
        self.last_activity = now;
        proof {
            assert forall|c: Currency| c != *currency implies #[trigger] balance_of(self@, c)
                == balance_of(old(self)@, c) by {
                assert(currency_index(c) != i as int);
            }
            assert forall|j: int| 0 <= j < 6 implies (#[trigger] self@.balances[j]).0
                == currency_order()[j] by {
                if j != i {
                    assert(self@.balances[j] == old(self)@.balances[j]);
                }
            }
        }
        Ok(())
    }

    /// The flat fee charged per currency.
    pub fn calculate_fee(&self, currency: &Currency) -> (r: u64)
        ensures
            r == spec_fee(*currency),
    {
        match currency {
            Currency::BTC => 1000,
            Currency::ETH => 21000000000000000,
            Currency::USDC => 100000,
            Currency::LTC => 10000,
            Currency::XMR => 1000000000,
            Currency::DOGE => 1000000,
        }
    }

    /// Builds and signs an outgoing transfer without recording or debiting
    /// it; a balance below the amount is reported.
    pub fn create_transaction(&mut self, to: String, amount: u64, currency: Currency, now: u64)
        -> (r: Result<Transaction, CoreError>)
        requires
            old(self).wf(),
        ensures
            *final(self) == *old(self),
            r is Ok <==> balance_of(old(self)@, currency) >= amount,
            r is Err ==> r == Result::<Transaction, CoreError>::Err(CoreError::InsufficientBalance),
            r matches Ok(t) ==> ({
                &&& t@.id.len() == 36
                &&& t@.from == old(self)@.did
                &&& t@.to == to@
                &&& t@.amount == amount
                &&& t@.currency == currency
                &&& t@.timestamp == now
                &&& t@.status == TransactionStatus::Pending
                &&& t@.fee == 0
                &&& t@.signature == sig_of(
                    old(self)@.secret_key,
                    tx_message(t@.id, old(self)@.did, to@, amount, currency),
                )
            }),
    {
        let i = Self::index_of(&currency);
        if self.balances[i].1 < amount {
            return Err(CoreError::InsufficientBalance);
        }
        let transaction_id = new_uuid_string();
        let mut message: Vec<u8> = Vec::new();
        write_str(&mut message, &transaction_id);
        write_str(&mut message, &self.did);
        write_str(&mut message, &to);
        write_u64(&mut message, amount);
        write_currency(&mut message, currency);
        proof {
            assert(message@ =~= tx_message(transaction_id@, self@.did, to@, amount, currency));
        }
        let signature = sign_bytes(self.secret_key.as_slice(), message.as_slice());
        Ok(
            Transaction {
                id: transaction_id,
                from: self.did.clone(),
                to,
                amount,
                currency,
                timestamp: now,
                signature,
                status: TransactionStatus::Pending,
                fee: 0,
                block_height: None,
                confirmations: 0,
                memo: None,
            },
        )
    }

    /// Re-signs a transfer in place with this wallet's key and stamps it.
    pub fn sign_transaction(&self, transaction: &mut Transaction, now: u64)
        requires
            self.wf(),
        ensures
            final(transaction)@.signature == sig_of(
                self@.secret_key,
                tx_message(
                    old(transaction)@.id,
                    old(transaction)@.from,
                    old(transaction)@.to,
                    old(transaction)@.amount,
                    old(transaction)@.currency,
                ),
            ),
            final(transaction)@.timestamp == now,
            final(transaction)@.id == old(transaction)@.id,
            final(transaction)@.from == old(transaction)@.from,
            final(transaction)@.to == old(transaction)@.to,
            final(transaction)@.amount == old(transaction)@.amount,
            final(transaction)@.currency == old(transaction)@.currency,
            final(transaction)@.status == old(transaction)@.status,
            final(transaction)@.fee == old(transaction)@.fee,
    {
        let mut message: Vec<u8> = Vec::new();
        write_str(&mut message, &transaction.id);
        write_str(&mut message, &transaction.from);
        write_str(&mut message, &transaction.to);
        write_u64(&mut message, transaction.amount);
        write_currency(&mut message, transaction.currency);
        proof {
            assert(message@ =~= tx_message(
                transaction@.id,
                transaction@.from,
                transaction@.to,
                transaction@.amount,
                transaction@.currency,
            ));
        }
        let signature = sign_bytes(self.secret_key.as_slice(), message.as_slice());
        transaction.signature = signature;
        transaction.timestamp = now;
    }

    /// Whether a transfer's signature verifies under the given public key;
    /// wrong-length keys or signatures verify as false.
    pub fn verify_transaction(&self, transaction: &Transaction, public_key: &[u8]) -> (r: bool)
        ensures
            public_key@.len() == 32 && transaction@.signature.len() == 64 ==> r == sig_checks(
                transaction@.signature,
                tx_message(
                    transaction@.id,
                    transaction@.from,
                    transaction@.to,
                    transaction@.amount,
                    transaction@.currency,
                ),
                public_key@,
            ),
            !(public_key@.len() == 32 && transaction@.signature.len() == 64) ==> r == false,
    {
        if public_key.len() != 32 || transaction.signature.len() != 64 {
            return false;
        }
        let mut message: Vec<u8> = Vec::new();
        write_str(&mut message, &transaction.id);
        write_str(&mut message, &transaction.from);
        write_str(&mut message, &transaction.to);
        write_u64(&mut message, transaction.amount);
        write_currency(&mut message, transaction.currency);
        proof {
            assert(message@ =~= tx_message(
                transaction@.id,
                transaction@.from,
                transaction@.to,
                transaction@.amount,
                transaction@.currency,
            ));
        }
        verify_bytes(transaction.signature.as_slice(), message.as_slice(), public_key)
    }

    /// Sends funds: the amount plus the fee leaves the balance, and a
    /// signed, pending transfer joins the history. A balance below the
    /// total is reported and nothing changes.
    pub fn send_funds(&mut self, request: SendRequest, now: u64) -> (r: Result<
        SendResponse,
        CoreError,
    >)
        requires
            old(self).wf(),
            request.amount + spec_fee(request.currency) <= u64::MAX,
            request.fee matches Some(f) ==> request.amount + f <= u64::MAX,
        ensures
            final(self).wf(),
            ({
                let fee = match request.fee {
                    Some(f) => f,
                    None => spec_fee(request.currency),
                };
                &&& (r is Ok <==> balance_of(old(self)@, request.currency) >= request.amount + fee)
                &&& (r is Err ==> r == Result::<SendResponse, CoreError>::Err(
                    CoreError::InsufficientBalance,
                ) && *final(self) == *old(self))
                &&& (r matches Ok(resp) ==> ({
                    &&& resp.fee == fee
                    &&& resp.success
                    &&& balance_of(final(self)@, request.currency) == balance_of(
                        old(self)@,
                        request.currency,
                    ) - request.amount - fee
                    &&& (forall|c: Currency|
                        c != request.currency ==> #[trigger] balance_of(final(self)@, c)
                            == balance_of(old(self)@, c))
                    &&& final(self)@.transactions.len() == old(self)@.transactions.len() + 1
                    &&& final(self)@.transactions.take(old(self)@.transactions.len() as int) == old(
                        self,
                    )@.transactions
                    &&& ({
                        let t = final(self)@.transactions.last();
                        &&& t.id == resp.transaction_id@
                        &&& t.from == old(self)@.did
                        &&& t.to == request.to_address@
                        &&& t.amount == request.amount
                        &&& t.currency == request.currency
                        &&& t.status == TransactionStatus::Pending
                        &&& t.fee == fee
                        &&& t.signature == sig_of(
                            old(self)@.secret_key,
                            send_message(
                                t.id,
                                old(self)@.did,
                                request.to_address@,
                                request.amount,
                                request.currency,
                                fee,
                            ),
                        )
                    })
                }))
            }),
    {
        let fee = match request.fee {
            Some(f) => f,
            None => self.calculate_fee(&request.currency),
        };
        let total = request.amount + fee;
        let i = Self::index_of(&request.currency);
        if self.balances[i].1 < total {
            return Err(CoreError::InsufficientBalance);
        }
        let transaction_id = new_uuid_string();
        let mut message: Vec<u8> = Vec::new();
        write_str(&mut message, &transaction_id);
        write_str(&mut message, &self.did);
        write_str(&mut message, &request.to_address);
        write_u64(&mut message, request.amount);
        write_currency(&mut message, request.currency);
        write_u64(&mut message, fee);
        proof {
            assert(message@ =~= send_message(
                transaction_id@,
                self@.did,
                request.to_address@,
                request.amount,
                request.currency,
                fee,
            ));
        }
        let signature = sign_bytes(self.secret_key.as_slice(), message.as_slice());
        let transaction = Transaction {
            id: transaction_id.clone(),
            from: self.did.clone(),
            to: request.to_address,
            amount: request.amount,
            currency: request.currency,
            timestamp: now,
            signature,
            status: TransactionStatus::Pending,
            fee,
            block_height: None,
            confirmations: 0,
            memo: request.memo,
        };
        let removed = self.remove_funds(&request.currency, total, now);
        proof {
            assert(removed is Ok);
        }
        let ghost mid_txs = self@.transactions;
        let ghost mid = self@;
        self.transactions.push(transaction);
        self.last_activity = now;
        proof {
            assert(self@.transactions =~= mid_txs.push(self@.transactions.last()));
            assert(self@.transactions.take(old(self)@.transactions.len() as int) =~= old(
                self,
            )@.transactions);
            assert(self@.balances == mid.balances);
            assert forall|c: Currency| c != request.currency implies #[trigger] balance_of(
                self@,
                c,
            ) == balance_of(old(self)@, c) by {
                assert(balance_of(mid, c) == balance_of(old(self)@, c));
                assert(balance_of(self@, c) == balance_of(mid, c));
            }
            assert(balance_of(self@, request.currency) == balance_of(mid, request.currency));
        }
        Ok(
            SendResponse {
                transaction_id,
                success: true,
                message: String::from_str("transaction sent"),
                fee,
            },
        )
    }

    /// Receives funds: the amount is credited and a confirmed transfer
    /// joins the history. The signature is stored as given; verifying it is
    /// out of scope here.
    pub fn receive_funds(
        &mut self,
        from_address: String,
        amount: u64,
        currency: Currency,
        transaction_id: String,
        signature: Vec<u8>,
        now: u64,
    )
        requires
            old(self).wf(),
            balance_of(old(self)@, currency) + amount <= u64::MAX,
        ensures
            final(self).wf(),
            balance_of(final(self)@, currency) == balance_of(old(self)@, currency) + amount,
            forall|c: Currency|
                c != currency ==> #[trigger] balance_of(final(self)@, c) == balance_of(
                    old(self)@,
                    c,
                ),
            final(self)@.transactions.len() == old(self)@.transactions.len() + 1,
            final(self)@.transactions.take(old(self)@.transactions.len() as int) == old(
                self,
            )@.transactions,
            ({
                let t = final(self)@.transactions.last();
                &&& t.id == transaction_id@
                &&& t.from == from_address@
                &&& t.to == old(self)@.did
                &&& t.amount == amount
                &&& t.currency == currency
                &&& t.signature == signature@
                &&& t.status == TransactionStatus::Confirmed
                &&& t.fee == 0
            }),
    {
        let transaction = Transaction {
            id: transaction_id,
            from: from_address,
            to: self.did.clone(),
            amount,
            currency,
            timestamp: now,
            signature,
            status: TransactionStatus::Confirmed,
            fee: 0,
            block_height: Some(0),
            confirmations: 6,
            memo: None,
        };
        self.add_funds(currency, amount, now);
        let ghost mid_txs = self@.transactions;
        let ghost mid = self@;
        self.transactions.push(transaction);
        self.last_activity = now;
        proof {
            assert(self@.transactions =~= mid_txs.push(self@.transactions.last()));
            assert(self@.transactions.take(old(self)@.transactions.len() as int) =~= old(
                self,
            )@.transactions);
            assert(self@.balances == mid.balances);
            assert forall|c: Currency| c != currency implies #[trigger] balance_of(self@, c)
                == balance_of(old(self)@, c) by {
                assert(balance_of(mid, c) == balance_of(old(self)@, c));
                assert(balance_of(self@, c) == balance_of(mid, c));
            }
            assert(balance_of(self@, currency) == balance_of(mid, currency));
        }
    }

    /// The whole transfer history, in order.
    pub fn get_transaction_history(&self) -> (r: Vec<Transaction>)
        ensures
            views_of_txs(r@) == self@.transactions,
    {
        let mut out: Vec<Transaction> = Vec::new();
        let mut i: usize = 0;
        while i < self.transactions.len()
            invariant
                i <= self.transactions@.len(),
                out@.len() == i,
                forall|j: int| 0 <= j < i ==> out@[j]@ == self@.transactions[j],
            decreases self.transactions@.len() - i,
        {
            out.push(self.transactions[i].clone());
            i += 1;
        }
        proof {
            assert(views_of_txs(out@) =~= self@.transactions);
        }
        out
    }

    /// The transfers in one currency, in order.
    pub fn get_transactions_by_currency(&self, currency: &Currency) -> (r: Vec<Transaction>)
        ensures
            views_of_txs(r@) == txs_in_currency(self@.transactions, *currency),
    {
        let mut out: Vec<Transaction> = Vec::new();
        let mut i: usize = 0;
        proof {
            assert(views_of_txs(out@) =~= txs_in_currency(self@.transactions.take(0), *currency));
        }
        while i < self.transactions.len()
            invariant
                i <= self.transactions@.len(),
                views_of_txs(out@) == txs_in_currency(
                    self@.transactions.take(i as int),
                    *currency,
                ),
            decreases self.transactions@.len() - i,
        {
            let ghost ov = views_of_txs(out@);
            let hit = match (self.transactions[i].currency, currency) {
                (Currency::BTC, Currency::BTC) => true,
                (Currency::ETH, Currency::ETH) => true,
                (Currency::USDC, Currency::USDC) => true,
                (Currency::LTC, Currency::LTC) => true,
                (Currency::XMR, Currency::XMR) => true,
                (Currency::DOGE, Currency::DOGE) => true,
                _ => false,
            };
            if hit {
                out.push(self.transactions[i].clone());
            }
            proof {
                let s = self@.transactions;
                assert(s.take(i + 1).drop_last() =~= s.take(i as int));
                assert(s.take(i + 1).last() == s[i as int]);
                assert(hit == (s[i as int].currency == *currency));
                if hit {
                    assert(views_of_txs(out@) =~= ov + seq![s[i as int]]);
                } else {
                    assert(views_of_txs(out@) =~= ov);
                    assert(ov + Seq::<TransactionView>::empty() =~= ov);
                }
            }
            i += 1;
        }
        proof {
            assert(self@.transactions.take(self@.transactions.len() as int) =~= self@.transactions);
        }
        out
    }

    /// The first recorded transfer with the identifier, if any.
    pub fn get_transaction_by_id(&self, transaction_id: &str) -> (r: Option<Transaction>)
        ensures
            r is Some <==> has_tx(self@.transactions, transaction_id@),
            r matches Some(t) ==> exists|i: int|
                0 <= i < self@.transactions.len() && #[trigger] self@.transactions[i] == t@
                    && self@.transactions[i].id == transaction_id@,
    {
        let mut i: usize = 0;
        while i < self.transactions.len()
            invariant
                i <= self.transactions@.len(),
                forall|j: int| 0 <= j < i ==> self@.transactions[j].id != transaction_id@,
            decreases self.transactions@.len() - i,
        {
            if str_eq(self.transactions[i].id.as_str(), transaction_id) {
                proof {
                    assert(self@.transactions[i as int].id == transaction_id@);
                }
                return Some(self.transactions[i].clone());
            }
            i += 1;
        }
        proof {
            assert forall|j: int| 0 <= j < self@.transactions.len() implies
                self@.transactions[j].id != transaction_id@ by {
                assert(self@.transactions[j].id == self.transactions@[j]@.id);
            }
        }
        None
    }

    /// Settles a recorded transfer against this wallet: a confirmed
    /// transfer credits the receiver or debits the sender; a failed one
    /// refunds the sender; anything else only joins the history. The
    /// signature must verify under this wallet's own key.
    pub fn process_transaction(&mut self, transaction: &Transaction, now: u64) -> (r: Result<
        (),
        CoreError,
    >)
        requires
            old(self).wf(),
            balance_of(old(self)@, transaction.currency) + transaction.amount <= u64::MAX,
        ensures
            final(self).wf(),
            ({
                let good_signature = transaction@.signature.len() == 64 && sig_checks(
                    transaction@.signature,
                    tx_message(
                        transaction@.id,
                        transaction@.from,
                        transaction@.to,
                        transaction@.amount,
                        transaction@.currency,
                    ),
                    pk_of(old(self)@.secret_key),
                );
                let incoming = transaction@.status == TransactionStatus::Confirmed
                    && transaction@.to == old(self)@.did;
                let outgoing = transaction@.status == TransactionStatus::Confirmed
                    && transaction@.to != old(self)@.did && transaction@.from == old(self)@.did;
                let refunded = transaction@.status == TransactionStatus::Failed
                    && transaction@.from == old(self)@.did;
                &&& (!good_signature ==> r == Result::<(), CoreError>::Err(
                    CoreError::InvalidSignature,
                ) && *final(self) == *old(self))
                &&& (good_signature && outgoing && balance_of(old(self)@, transaction@.currency)
                    < transaction@.amount ==> r == Result::<(), CoreError>::Err(
                    CoreError::InsufficientBalance,
                ) && *final(self) == *old(self))
                &&& (good_signature && !(outgoing && balance_of(old(self)@, transaction@.currency)
                    < transaction@.amount) ==> ({
                    &&& r is Ok
                    &&& (incoming ==> balance_of(final(self)@, transaction@.currency) == balance_of(
                        old(self)@,
                        transaction@.currency,
                    ) + transaction@.amount)
                    &&& (outgoing ==> balance_of(final(self)@, transaction@.currency) == balance_of(
                        old(self)@,
                        transaction@.currency,
                    ) - transaction@.amount)
                    &&& (refunded ==> balance_of(final(self)@, transaction@.currency)
                        == balance_of(old(self)@, transaction@.currency) + transaction@.amount)
                    &&& (!incoming && !outgoing && !refunded
                        ==> final(self)@.balances == old(self)@.balances)
                    &&& (has_tx(old(self)@.transactions, transaction@.id)
                        ==> final(self)@.transactions == old(self)@.transactions)
                    &&& (!has_tx(old(self)@.transactions, transaction@.id)
                        ==> final(self)@.transactions == old(self)@.transactions.push(
                        transaction@,
                    ))
                }))
            }),
    {
        let pk = self.get_public_key();
        if !self.verify_transaction(transaction, pk.as_slice()) {
            return Err(CoreError::InvalidSignature);
        }
        match transaction.status {
            TransactionStatus::Confirmed => {
                if str_eq(transaction.to.as_str(), self.did.as_str()) {
                    self.add_funds(transaction.currency, transaction.amount, now);
                } else if str_eq(transaction.from.as_str(), self.did.as_str()) {
                    match self.remove_funds(&transaction.currency, transaction.amount, now) {
                        Ok(_) => (),
                        Err(e) => {
                            return Err(e);
                        },
                    }
                }
            },
            TransactionStatus::Failed => {
                if str_eq(transaction.from.as_str(), self.did.as_str()) {
                    self.add_funds(transaction.currency, transaction.amount, now);
                }
            },
            _ => (),
        }
        let ghost mid = self@;
        proof {
            assert(mid.transactions == old(self)@.transactions);
        }
        let mut seen = false;
        let mut i: usize = 0;
        while i < self.transactions.len()
            invariant
                self@.transactions == mid.transactions,
                mid.transactions == old(self)@.transactions,
                i <= self.transactions@.len(),
                seen <==> exists|j: int|
                    0 <= j < i && #[trigger] self@.transactions[j].id == transaction@.id,
            decreases self.transactions@.len() - i,
        {
            if str_eq(self.transactions[i].id.as_str(), transaction.id.as_str()) {
                proof {
                    assert(self@.transactions[i as int].id == transaction@.id);
                }
                seen = true;
            }
            i += 1;
        }
        proof {
            assert(seen <==> has_tx(old(self)@.transactions, transaction@.id));
        }
        let ghost pre_push = self@;
        if !seen {
            self.transactions.push(transaction.clone());
            proof {
                assert(self@.transactions =~= pre_push.transactions.push(transaction@));
            }
        }
        self.last_activity = now;
        proof {
            assert(self@.balances == pre_push.balances);
            assert forall|c: Currency| true implies #[trigger] balance_of(self@, c) == balance_of(
                pre_push,
                c,
            ) by {}
        }
        Ok(())
    }

    /// The stored balance of a currency, rendered as whole coins.
    pub fn get_formatted_balance(&self, currency: &Currency) -> (r: String)
        requires
            self.wf(),
        ensures
            r@ == spec_format_amount(*currency, balance_of(self@, *currency)),
    {
        let amount = self.get_balance(currency);
        currency.format_amount(amount)
    }

    /// A summary of the wallet: its identity, encoded public key, and one
    /// address and formatted balance per currency, in the fixed order.
    pub fn get_wallet_info(&self) -> (r: WalletInfo)
        requires
            self.wf(),
        ensures
            r.did@ == self@.did,
            r.public_key@ == base64_of(pk_of(self@.secret_key)),
            r.total_transactions == self@.transactions.len(),
            r.created_at == self@.created_at,
            r.last_activity == self@.last_activity,
            r.addresses@.len() == 6,
            forall|i: int|
                0 <= i < 6 ==> (#[trigger] r.addresses@[i]).0@ == currency_order()[
                    i
                ].spec_symbol() && r.addresses@[i].1@ == address_of(self@, currency_order()[i]),
            r.balances@.len() == 6,
            forall|i: int|
                0 <= i < 6 ==> (#[trigger] r.balances@[i]).0@ == currency_order()[i].spec_symbol()
                    && r.balances@[i].1@ == spec_format_amount(
                    currency_order()[i],
                    balance_of(self@, currency_order()[i]),
                ),
    {
        let mut addresses: Vec<(String, String)> = Vec::new();
        let mut balances: Vec<(String, String)> = Vec::new();
        let order = [
            Currency::BTC,
            Currency::ETH,
            Currency::USDC,
            Currency::LTC,
            Currency::XMR,
            Currency::DOGE,
        ];
        let mut i: usize = 0;
        while i < 6
            invariant
                self.wf(),
                i <= 6,
                order@ == currency_order(),
                addresses@.len() == i,
                balances@.len() == i,
                forall|j: int|
                    0 <= j < i ==> (#[trigger] addresses@[j]).0@ == currency_order()[
                        j
                    ].spec_symbol() && addresses@[j].1@ == address_of(self@, currency_order()[j]),
                forall|j: int|
                    0 <= j < i ==> (#[trigger] balances@[j]).0@ == currency_order()[
                        j
                    ].spec_symbol() && balances@[j].1@ == spec_format_amount(
                        currency_order()[j],
                        balance_of(self@, currency_order()[j]),
                    ),
            decreases 6 - i,
        {
            let c = order[i];
            addresses.push((String::from_str(c.symbol()), self.get_address(&c)));
            balances.push((String::from_str(c.symbol()), self.get_formatted_balance(&c)));
            i += 1;
        }
        WalletInfo {
            did: self.did.clone(),
            public_key: self.get_public_key_base64(),
            addresses,
            balances,
            total_transactions: self.transactions.len(),
            created_at: self.created_at,
            last_activity: self.last_activity,
        }
    }

    /// Serializes what rebuilds the wallet: its identity, seed, preferred
    /// currency, and creation time, in the codec's encoding. Balances and
    /// history are not backed up; restoring restarts them.
    pub fn backup_wallet(&self) -> (r: Vec<u8>)
        ensures
            r@ == enc_backup(
                self@.did,
                self@.secret_key,
                self@.preferred_currency,
                self@.created_at,
            ),
    {
        let mut out: Vec<u8> = Vec::new();
        write_str(&mut out, &self.did);
        write_bytes(&mut out, &self.secret_key);
        write_currency(&mut out, self.preferred_currency);
        write_u64(&mut out, self.created_at);
        proof {
            assert(out@ =~= enc_backup(
                self@.did,
                self@.secret_key,
                self@.preferred_currency,
                self@.created_at,
            ));
        }
        out
    }

    /// Rebuilds a wallet from a backup: the identity, seed, preferred
    /// currency, and creation time come back; balances restart from the
    /// standard starting amounts. Bytes that do not spell exactly one
    /// backup of a 32-byte seed are rejected.
    pub fn restore_wallet(data: &Vec<u8>, now: u64) -> (r: Result<Self, CoreError>)
        ensures
            r is Ok <==> dec_backup(data@) is Some,
            r is Err ==> r == Result::<Self, CoreError>::Err(CoreError::InvalidBackup),
            r matches Ok(w) ==> (dec_backup(data@) matches Some(fields) && ({
                &&& w.wf()
                &&& w@.did == fields.0
                &&& w@.secret_key == fields.1
                &&& w@.preferred_currency == fields.2
                &&& w@.created_at == fields.3
                &&& w@.transactions.len() == 0
                &&& forall|c: Currency| #[trigger] balance_of(w@, c) == c.spec_initial_balance()
                &&& w@.last_activity == now
            })),
    {
        let (did, o1) = match read_string(data, 0) {
            Some(p) => p,
            None => {
                return Err(CoreError::InvalidBackup);
            },
        };
        let (secret, o2) = match read_bytes(data, o1) {
            Some(p) => p,
            None => {
                return Err(CoreError::InvalidBackup);
            },
        };
        let (preferred, o3) = match read_currency(data, o2) {
            Some(p) => p,
            None => {
                return Err(CoreError::InvalidBackup);
            },
        };
        let (created_at, o4) = match read_u64(data, o3) {
            Some(p) => p,
            None => {
                return Err(CoreError::InvalidBackup);
            },
        };
        if o4 != data.len() || secret.len() != 32 {
            return Err(CoreError::InvalidBackup);
        }
        proof {
            assert(dec_backup(data@) == Some((did@, secret@, preferred, created_at)));
        }
        let mut wallet = Self::build(did, secret, created_at);
        let ghost built = wallet@;
        wallet.preferred_currency = preferred;
        wallet.last_activity = now;
        proof {
            assert(wallet@.balances == built.balances);
            assert(wallet@.addresses == built.addresses);
            assert forall|c: Currency| #[trigger] balance_of(wallet@, c)
                == c.spec_initial_balance() by {
                assert(balance_of(built, c) == c.spec_initial_balance());
            }
            assert(wallet.wf());
        }
        Ok(wallet)
    }

    /// A copy of the 32-byte secret seed.
    pub fn export_private_key(&self) -> (r: Vec<u8>)
        ensures
            r@ == self@.secret_key,
    {
        clone_bytes(&self.secret_key)
    }

    /// The secret seed, base64-encoded.
    pub fn export_private_key_base64(&self) -> (r: String)
        ensures
            r@ == base64_of(self@.secret_key),
    {
        self.get_private_key_base64()
    }
}

/// The flat fee each currency carries.
pub open spec fn spec_fee(c: Currency) -> u64 {
    match c {
        Currency::BTC => 1000,
        Currency::ETH => 21000000000000000,
        Currency::USDC => 100000,
        Currency::LTC => 10000,
        Currency::XMR => 1000000000,
        Currency::DOGE => 1000000,
    }
}

/// The transfers in one currency, in order.
pub open spec fn txs_in_currency(s: Seq<TransactionView>, c: Currency) -> Seq<TransactionView>
    decreases s.len(),
{
    if s.len() == 0 {
        Seq::<TransactionView>::empty()
    } else {
        txs_in_currency(s.drop_last(), c) + if s.last().currency == c {
            seq![s.last()]
        } else {
            Seq::<TransactionView>::empty()
        }
    }
}

/// The encoding of a wallet backup.
pub open spec fn enc_backup(
    did: Seq<char>,
    secret: Seq<u8>,
    preferred: Currency,
    created_at: u64,
) -> Seq<u8> {
    enc_str(did) + enc_bytes(secret) + enc_currency(preferred) + enc_u64(created_at)
}

/// The currency a tag byte stands for.
pub open spec fn currency_of_tag(t: u8) -> Option<Currency> {
    if t == 0 {
        Some(Currency::BTC)
    } else if t == 1 {
        Some(Currency::ETH)
    } else if t == 2 {
        Some(Currency::USDC)
    } else if t == 3 {
        Some(Currency::LTC)
    } else if t == 4 {
        Some(Currency::XMR)
    } else if t == 5 {
        Some(Currency::DOGE)
    } else {
        None
    }
}

/// Reads a currency tag at an offset.
pub open spec fn rd_currency(data: Seq<u8>, off: int) -> Option<(Currency, int)> {
    if 0 <= off && off + 1 <= data.len() {
        match currency_of_tag(data[off]) {
            Some(c) => Some((c, off + 1)),
            None => None,
        }
    } else {
        None
    }
}

/// Reads a currency tag at an offset; absent at the end or on an unknown
/// tag.
fn read_currency(data: &Vec<u8>, off: usize) -> (r: Option<(Currency, usize)>)
    ensures
        r is Some <==> rd_currency(data@, off as int) is Some,
        r matches Some(p) ==> rd_currency(data@, off as int) == Some((p.0, p.1 as int)),
{
    if off >= data.len() {
        return None;
    }
    let t = data[off];
    let c = if t == 0 {
        Currency::BTC
    } else if t == 1 {
        Currency::ETH
    } else if t == 2 {
        Currency::USDC
    } else if t == 3 {
        Currency::LTC
    } else if t == 4 {
        Currency::XMR
    } else if t == 5 {
        Currency::DOGE
    } else {
        return None;
    };
    Some((c, off + 1))
}

/// Decodes a whole buffer as one wallet backup of a 32-byte seed.
pub open spec fn dec_backup(bytes: Seq<u8>) -> Option<(Seq<char>, Seq<u8>, Currency, u64)> {
    match rd_str(bytes, 0) {
        Some((did, o1)) => match rd_bytes(bytes, o1) {
            Some((secret, o2)) => match rd_currency(bytes, o2) {
                Some((preferred, o3)) => match rd_u64(bytes, o3) {
                    Some((created_at, o4)) => if o4 == bytes.len() && secret.len() == 32 {
                        Some((did, secret, preferred, created_at))
                    } else {
                        None
                    },
                    None => None,
                },
                None => None,
            },
            None => None,
        },
        None => None,
    }
}

/// Decoding the encoding of a backup yields the backed-up fields.
#[verifier::rlimit(100)]
pub proof fn lemma_backup_round_trip(
    did: Seq<char>,
    secret: Seq<u8>,
    preferred: Currency,
    created_at: u64,
)
    requires
        crate::codec::str_enc_wf(did),
        secret.len() == 32,
    ensures
        dec_backup(enc_backup(did, secret, preferred, created_at)) == Some(
            (did, secret, preferred, created_at),
        ),
{
    broadcast use crate::codec::lemma_enc_u64_len;

    let e1 = enc_str(did);
    let e2 = enc_bytes(secret);
    let e3 = enc_currency(preferred);
    let e4 = enc_u64(created_at);
    let data = enc_backup(did, secret, preferred, created_at);
    assert(data.subrange(0, data.len() as int) =~= data);
    lemma_split_subrange(data, 0, e1 + e2 + e3, e4);
    lemma_split_subrange(data, 0, e1 + e2, e3);
    lemma_split_subrange(data, 0, e1, e2);
    lemma_rd_str_of_enc(data, 0, did);
    lemma_rd_bytes_of_enc(data, e1.len() as int, secret);
    let o2 = e1.len() + e2.len();
    assert(data[o2 as int] == e3[0]);
    lemma_rd_u64_of_enc(data, (o2 + 1) as int, created_at);
}

// ---------------------------------------------------------------------------
// Multi-signature wallet
// ---------------------------------------------------------------------------

/// A transfer out of a multi-signature wallet, confirmed once enough
/// participants have signed.
#[derive(Debug)]
pub struct MultiSigTransaction {
    pub id: String,
    pub to: String,
    pub amount: u64,
    pub currency: Currency,
    pub signatures: Vec<(String, Vec<u8>)>,
    pub status: TransactionStatus,
    pub created_at: u64,
}

/// Mathematical image of a [`MultiSigTransaction`].
pub struct MultiSigTransactionView {
    pub id: Seq<char>,
    pub to: Seq<char>,
    pub amount: u64,
    pub currency: Currency,
    pub signatures: Seq<(Seq<char>, Seq<u8>)>,
    pub status: TransactionStatus,
    pub created_at: u64,
}

impl View for MultiSigTransaction {
    type V = MultiSigTransactionView;

    open spec fn view(&self) -> MultiSigTransactionView {
        MultiSigTransactionView {
            id: self.id@,
            to: self.to@,
            amount: self.amount,
            currency: self.currency,
            signatures: signatures_view(self.signatures@),
            status: self.status,
            created_at: self.created_at,
        }
    }
}

impl Clone for MultiSigTransaction {
    fn clone(&self) -> (r: Self)
        ensures
            r@ == self@,
    {
        MultiSigTransaction {
            id: self.id.clone(),
            to: self.to.clone(),
            amount: self.amount,
            currency: self.currency,
            signatures: clone_signatures(&self.signatures),
            status: self.status,
            created_at: self.created_at,
        }
    }
}

/// The views of a multi-signature transfer list.
pub open spec fn views_of_mstxs(s: Seq<MultiSigTransaction>) -> Seq<MultiSigTransactionView> {
    s.map_values(|t: MultiSigTransaction| t@)
}

/// A wallet shared by several participants: a transfer leaves it only once
/// a threshold of distinct participants have signed.
#[derive(Debug)]
pub struct MultiSigWallet {
    pub address: String,
    pub participants: Vec<String>,
    pub threshold: usize,
    pub balance: u64,
    pub currency: Currency,
    pub pending_transactions: Vec<MultiSigTransaction>,
}

impl MultiSigWallet {
    /// Internal consistency: each pending transfer's signers are distinct.
    pub open spec fn wf(&self) -> bool {
        forall|i: int, p: int, q: int|
            0 <= i < self.pending_transactions@.len() && 0 <= p < q
                < self.pending_transactions@[i]@.signatures.len() ==> (
            #[trigger] self.pending_transactions@[i]@.signatures[p]).0 != (
            #[trigger] self.pending_transactions@[i]@.signatures[q]).0
    }

    /// An empty shared wallet for the given participants and threshold,
    /// with a freshly drawn address label.
    pub fn new(participants: Vec<String>, threshold: usize, currency: Currency) -> (r: Self)
        ensures
            r.wf(),
            r.participants.deep_view() == participants.deep_view(),
            r.threshold == threshold,
            r.balance == 0,
            r.currency == currency,
            r.pending_transactions@.len() == 0,
            r.address@.len() == "multisig_"@.len() + 8,
    {
        let id = new_uuid_string();
        let address = String::from_str("multisig_").concat(id.as_str().substring_ascii(0, 8));
        MultiSigWallet {
            address,
            participants,
            threshold,
            balance: 0,
            currency,
            pending_transactions: Vec::new(),
        }
    }

    /// Credits the shared balance.
    pub fn add_funds(&mut self, amount: u64)
        requires
            old(self).wf(),
            old(self).balance + amount <= u64::MAX,
        ensures
            final(self).wf(),
            *final(self) == (MultiSigWallet {
                balance: (old(self).balance + amount) as u64,
                ..*old(self)
            }),
    {
        self.balance = self.balance + amount;
    }

    /// Opens a transfer out of the shared wallet with no signatures yet; an
    /// amount above the balance is reported. The transfer's identifier
    /// comes back.
    pub fn create_transaction(&mut self, to: String, amount: u64, now: u64) -> (r: Result<
        String,
        CoreError,
    >)
        requires
            old(self).wf(),
        ensures
            final(self).wf(),
            r is Ok <==> amount <= old(self).balance,
            r is Err ==> r == Result::<String, CoreError>::Err(CoreError::InsufficientBalance)
                && *final(self) == *old(self),
            r matches Ok(id) ==> ({
                &&& id@.len() == 36
                &&& final(self).balance == old(self).balance
                &&& final(self).pending_transactions@.len() == old(
                    self,
                ).pending_transactions@.len() + 1
                &&& views_of_mstxs(final(self).pending_transactions@).take(
                    old(self).pending_transactions@.len() as int,
                ) == views_of_mstxs(old(self).pending_transactions@)
                &&& ({
                    let t = final(self).pending_transactions@.last()@;
                    &&& t.id == id@
                    &&& t.to == to@
                    &&& t.amount == amount
                    &&& t.currency == old(self).currency
                    &&& t.signatures.len() == 0
                    &&& t.status == TransactionStatus::Pending
                    &&& t.created_at == now
                })
            }),
    {
        if amount > self.balance {
            return Err(CoreError::InsufficientBalance);
        }
        let transaction_id = new_uuid_string();
        let transaction = MultiSigTransaction {
            id: transaction_id.clone(),
            to,
            amount,
            currency: self.currency,
            signatures: Vec::new(),
            status: TransactionStatus::Pending,
            created_at: now,
        };
        let ghost t0 = self.pending_transactions@;
        proof {
            assert(transaction@.signatures =~= Seq::<(Seq<char>, Seq<u8>)>::empty());
        }
        self.pending_transactions.push(transaction);
        proof {
            let t1 = self.pending_transactions@;
            assert(t1 =~= t0.push(t1.last()));
            assert(views_of_mstxs(t1).take(t0.len() as int) =~= views_of_mstxs(t0));
            assert forall|i: int, p: int, q: int|
                0 <= i < t1.len() && 0 <= p < q < t1[i]@.signatures.len() implies (
            #[trigger] t1[i]@.signatures[p]).0 != (#[trigger] t1[i]@.signatures[q]).0 by {
                if i < t0.len() {
                    assert(t1[i] == t0[i]);
                } else {
                    assert(t1[i]@.signatures.len() == 0);
                }
            }
        }
        Ok(transaction_id)
    }

    /// Records one participant's signature on a pending transfer; the
    /// transfer is confirmed, and the balance debited, exactly when the
    /// distinct-signer count reaches the threshold. A non-participant is
    /// reported, as is an unknown transfer identifier; neither changes
    /// anything.
    pub fn add_signature(&mut self, transaction_id: &str, signer: String, signature: Vec<u8>)
        -> (r: Result<bool, CoreError>)
        requires
            old(self).wf(),
            forall|i: int|
                0 <= i < old(self).pending_transactions@.len() ==> (#[trigger] old(
                    self,
                ).pending_transactions@[i])@.amount <= old(self).balance,
        ensures
            final(self).wf(),
            final(self).threshold == old(self).threshold,
            r is Err ==> *final(self) == *old(self) && (r
                == Result::<bool, CoreError>::Err(CoreError::TransactionNotFound) || r
                == Result::<bool, CoreError>::Err(CoreError::SignerNotParticipant)),
            !(exists|i: int|
                0 <= i < old(self).pending_transactions@.len() && (#[trigger] old(
                    self,
                ).pending_transactions@[i])@.id == transaction_id@) ==> r
                == Result::<bool, CoreError>::Err(CoreError::TransactionNotFound),
            r matches Ok(confirmed) ==> ({
                &&& old(self).participants.deep_view().contains(signer@)
                &&& exists|i: int|
                    {
                        let t0 = (#[trigger] old(self).pending_transactions@[i])@;
                        let t1 = final(self).pending_transactions@[i]@;
                        let n1 = if has_signer(t0.signatures, signer@) {
                            t0.signatures.len() as int
                        } else {
                            t0.signatures.len() as int + 1
                        };
                        &&& 0 <= i < old(self).pending_transactions@.len()
                        &&& t0.id == transaction_id@
                        &&& t1.signatures.len() == n1
                        &&& has_signer(t1.signatures, signer@)
                        &&& sig_val_of(t1.signatures, signer@) == signature@
                        &&& (confirmed <==> n1 >= old(self).threshold)
                        &&& (confirmed ==> t1.status == TransactionStatus::Confirmed
                            && final(self).balance == old(self).balance - t0.amount)
                        &&& (!confirmed ==> t1.status == t0.status
                            && final(self).balance == old(self).balance)
                    }
            }),
    {
        let mut i: usize = 0;
        while i < self.pending_transactions.len()
            invariant
                *self == *old(self),
                old(self).wf(),
                forall|j: int|
                    0 <= j < old(self).pending_transactions@.len() ==> (#[trigger] old(
                        self,
                    ).pending_transactions@[j])@.amount <= old(self).balance,
                i <= self.pending_transactions@.len(),
                forall|j: int|
                    0 <= j < i ==> (#[trigger] old(self).pending_transactions@[j])@.id
                        != transaction_id@,
            decreases self.pending_transactions@.len() - i,
        {
            if str_eq(self.pending_transactions[i].id.as_str(), transaction_id) {
                if !crate::escrow::contains_string(&self.participants, signer.as_str()) {
                    return Err(CoreError::SignerNotParticipant);
                }
                let tx = &self.pending_transactions[i];
                proof {
                    assert forall|p: int, q: int|
                        0 <= p < q < crate::types::signatures_view(tx.signatures@).len() implies
                        crate::types::signatures_view(tx.signatures@)[p].0
                            != crate::types::signatures_view(tx.signatures@)[q].0 by {
                        assert((self.pending_transactions@[i as int]@.signatures[p]).0 != (
                        self.pending_transactions@[i as int]@.signatures[q]).0);
                    }
                }
                let new_sigs = crate::escrow::upsert_signature(&tx.signatures, signer, signature);
                let count = new_sigs.len();
                let confirmed = count >= self.threshold;
                let updated = MultiSigTransaction {
                    id: tx.id.clone(),
                    to: tx.to.clone(),
                    amount: tx.amount,
                    currency: tx.currency,
                    signatures: new_sigs,
                    status: if confirmed {
                        TransactionStatus::Confirmed
                    } else {
                        tx.status
                    },
                    created_at: tx.created_at,
                };
                let ghost uv = updated@;
                let amount = self.pending_transactions[i].amount;
                self.pending_transactions.set(i, updated);
                if confirmed {
                    self.balance = self.balance - amount;
                }
                proof {
                    let t1s = self.pending_transactions@;
                    let t0s = old(self).pending_transactions@;
                    assert(t1s =~= t0s.update(i as int, t1s[i as int]));
                    assert(t1s[i as int]@ == uv);
                    assert forall|ii: int, p: int, q: int|
                        0 <= ii < t1s.len() && 0 <= p < q < t1s[ii]@.signatures.len() implies (
                    #[trigger] t1s[ii]@.signatures[p]).0 != (
                    #[trigger] t1s[ii]@.signatures[q]).0 by {
                        if ii != i {
                            assert(t1s[ii] == t0s[ii]);
                        } else {
                            assert(t1s[ii]@.signatures == uv.signatures);
                        }
                    }
                    assert(t0s[i as int]@.id == transaction_id@);
                }
                return Ok(confirmed);
            }
            i += 1;
        }
        proof {
            assert forall|j: int| 0 <= j < old(self).pending_transactions@.len() implies (
            #[trigger] old(self).pending_transactions@[j])@.id != transaction_id@ by {}
        }
        Err(CoreError::TransactionNotFound)
    }

    /// The pending transfers, in order.
    pub fn get_pending_transactions(&self) -> (r: Vec<MultiSigTransaction>)
        ensures
            views_of_mstxs(r@) == views_of_mstxs(self.pending_transactions@),
    {
        let mut out: Vec<MultiSigTransaction> = Vec::new();
        let mut i: usize = 0;
        while i < self.pending_transactions.len()
            invariant
                i <= self.pending_transactions@.len(),
                out@.len() == i,
                forall|j: int| 0 <= j < i ==> out@[j]@ == self.pending_transactions@[j]@,
            decreases self.pending_transactions@.len() - i,
        {
            out.push(self.pending_transactions[i].clone());
            i += 1;
        }
        proof {
            assert(views_of_mstxs(out@) =~= views_of_mstxs(self.pending_transactions@));
        }
        out
    }
}

} // verus!
