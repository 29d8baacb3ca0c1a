//! Trading symbols: exchange, base and quote currencies, and the per-symbol
//! price and amount precisions.

use vstd::prelude::*;
use vstd::string::StringExecFns;

verus! {

#[derive(Clone, Copy, Debug, PartialEq, Eq, Structural)]
pub enum Exchange {
    Bitflyer,
    Binance,
    Gmo,
    Coincheck,
    Tachibana,
}

#[derive(Clone, Copy, Debug, PartialEq, Eq, Structural)]
pub enum SymbolType {
    Perp,
    Spot,
    Margin,
}

#[derive(Clone, Copy, Debug, PartialEq, Eq, Structural)]
pub enum Currency {
    BTC,
    XRP,
    JPY,
    USDT,
    /// Stock code 7203
    T7203,
    /// Stock code 6758
    T6758,
    /// Stock code 9432
    T9432,
    /// Stock code 6861
    T6861,
    /// Stock code 8306
    T8306,
    /// Stock code 8035
    T8035,
    /// Stock code 9983
    T9983,
    /// Stock code 4063
    T4063,
}

/// The wire name of a currency: the ticker for crypto and fiat, the bare
/// stock code for equities.
pub open spec fn currency_name(c: Currency) -> Seq<char> {
    match c {
        Currency::BTC => "BTC"@,
        Currency::XRP => "XRP"@,
        Currency::JPY => "JPY"@,
        Currency::USDT => "USDT"@,
        Currency::T7203 => "7203"@,
        Currency::T6758 => "6758"@,
        Currency::T9432 => "9432"@,
        Currency::T6861 => "6861"@,
        Currency::T8306 => "8306"@,
        Currency::T8035 => "8035"@,
        Currency::T9983 => "9983"@,
        Currency::T4063 => "4063"@,
    }
}

/// The lower-case wire name, used by exchanges with lower-case pairs.
pub open spec fn currency_name_lower(c: Currency) -> Seq<char> {
    match c {
        Currency::BTC => "btc"@,
        Currency::XRP => "xrp"@,
        Currency::JPY => "jpy"@,
        Currency::USDT => "usdt"@,
        Currency::T7203 => "7203"@,
        Currency::T6758 => "6758"@,
        Currency::T9432 => "9432"@,
        Currency::T6861 => "6861"@,
        Currency::T8306 => "8306"@,
        Currency::T8035 => "8035"@,
        Currency::T9983 => "9983"@,
        Currency::T4063 => "4063"@,
    }
}

impl Currency {
    /// The wire name as text.
    pub fn name(&self) -> (r: &'static str)
        ensures
            r@ == currency_name(*self),
    {
        match self {
            Currency::BTC => "BTC",
            Currency::XRP => "XRP",
            Currency::JPY => "JPY",
            Currency::USDT => "USDT",
            Currency::T7203 => "7203",
            Currency::T6758 => "6758",
            Currency::T9432 => "9432",
            Currency::T6861 => "6861",
            Currency::T8306 => "8306",
            Currency::T8035 => "8035",
            Currency::T9983 => "9983",
            Currency::T4063 => "4063",
        }
    }

    /// The lower-case wire name as text.
    pub fn name_lower(&self) -> (r: &'static str)
        ensures
            r@ == currency_name_lower(*self),
    {
        match self {
            Currency::BTC => "btc",
            Currency::XRP => "xrp",
            Currency::JPY => "jpy",
            Currency::USDT => "usdt",
            Currency::T7203 => "7203",
            Currency::T6758 => "6758",
            Currency::T9432 => "9432",
            Currency::T6861 => "6861",
            Currency::T8306 => "8306",
            Currency::T8035 => "8035",
            Currency::T9983 => "9983",
            Currency::T4063 => "4063",
        }
    }
}

/// The lower-case name of an exchange as it appears in file names.
pub open spec fn exchange_name(e: Exchange) -> Seq<char> {
    match e {
        Exchange::Bitflyer => "bitflyer"@,
        Exchange::Binance => "binance"@,
        Exchange::Gmo => "gmo"@,
        Exchange::Coincheck => "coincheck"@,
        Exchange::Tachibana => "tachibana"@,
    }
}

impl Exchange {
    pub fn name(&self) -> (r: &'static str)
        ensures
            r@ == exchange_name(*self),
    {
        match self {
            Exchange::Bitflyer => "bitflyer",
            Exchange::Binance => "binance",
            Exchange::Gmo => "gmo",
            Exchange::Coincheck => "coincheck",
            Exchange::Tachibana => "tachibana",
        }
    }
}

/// The lower-case name of a symbol type.
pub open spec fn symbol_type_name(t: SymbolType) -> Seq<char> {
    match t {
        SymbolType::Perp => "perp"@,
        SymbolType::Spot => "spot"@,
        SymbolType::Margin => "margin"@,
    }
}

impl SymbolType {
    pub fn name(&self) -> (r: &'static str)
        ensures
            r@ == symbol_type_name(*self),
    {
        match self {
            SymbolType::Perp => "perp",
            SymbolType::Spot => "spot",
            SymbolType::Margin => "margin",
        }
    }
}

#[derive(Clone, Copy, Debug, PartialEq, Eq, Structural)]
pub struct Symbol {
    pub base: Currency,
    pub quote: Currency,
    /// Settlement currency.
    pub settlement: Currency,
    pub kind: SymbolType,
    pub exc: Exchange,
}

/// The native pair name each exchange expects.
pub open spec fn native_name(s: Symbol) -> Seq<char> {
    match s.exc {
        Exchange::Gmo => match s.kind {
            SymbolType::Perp => currency_name(s.base) + "_"@ + currency_name(s.quote),
            _ => currency_name(s.base),
        },
        Exchange::Coincheck => currency_name_lower(s.base) + "_"@ + currency_name_lower(s.quote),
        Exchange::Binance => currency_name(s.base) + currency_name(s.quote),
        Exchange::Bitflyer => match s.kind {
            SymbolType::Perp => "FX_"@ + currency_name(s.base) + "_"@ + currency_name(s.quote),
            _ => currency_name(s.base) + "_"@ + currency_name(s.quote),
        },
        Exchange::Tachibana => currency_name(s.base),
    }
}

/// The combinations for which a native name exists; the margin form is not
/// defined on GMO and bitFlyer.
pub open spec fn native_name_defined(s: Symbol) -> bool {
    match s.exc {
        Exchange::Gmo => s.kind != SymbolType::Margin,
        Exchange::Bitflyer => s.kind != SymbolType::Margin,
        _ => true,
    }
}

impl Symbol {
    /// A symbol settles in its quote currency.
    pub fn new(base: Currency, quote: Currency, kind: SymbolType, exc: Exchange) -> (r: Self)
        ensures
            r.base == base,
            r.quote == quote,
            r.settlement == quote,
            r.kind == kind,
            r.exc == exc,
    {
        Self { base, quote, settlement: quote, kind, exc }
    }

    /// The pair name in the form the symbol's exchange expects.
    pub fn to_native(&self) -> (r: String)
        requires
            native_name_defined(*self),
        ensures
            r@ == native_name(*self),
    {
        match self.exc {
            Exchange::Gmo => match self.kind {
                SymbolType::Perp => {
                    let mut r = self.base.name().to_owned();
                    r.append("_");
                    r.append(self.quote.name());
                    r
                },
                _ => self.base.name().to_owned(),
            },
            Exchange::Coincheck => {
                let mut r = self.base.name_lower().to_owned();
                r.append("_");
                r.append(self.quote.name_lower());
                r
            },
            Exchange::Binance => {
                let mut r = self.base.name().to_owned();
                r.append(self.quote.name());
                r
            },
            Exchange::Bitflyer => match self.kind {
                SymbolType::Perp => {
                    let mut r = "FX_".to_owned();
                    r.append(self.base.name());
                    r.append("_");
                    r.append(self.quote.name());
                    r
                },
                _ => {
                    let mut r = self.base.name().to_owned();
                    r.append("_");
                    r.append(self.quote.name());
                    r
                },
            },
            Exchange::Tachibana => self.base.name().to_owned(),
        }
    }

    /// The `exchange-base-quote-type` form used in file names.
    pub fn to_file_form(&self) -> (r: String)
        ensures
            r@ == exchange_name(self.exc) + "-"@ + currency_name(self.base) + "-"@ + currency_name(
                self.quote,
            ) + "-"@ + symbol_type_name(self.kind),
    {
        let mut r = self.exc.name().to_owned();
        r.append("-");
        r.append(self.base.name());
        r.append("-");
        r.append(self.quote.name());
        r.append("-");
        r.append(self.kind.name());
        r
    }

    /// Exponent of the settlement currency's smallest unit; defined for yen
    /// settlement.
    pub fn settlement_precision(&self) -> (r: i32)
        requires
            self.settlement == Currency::JPY,
        ensures
            r == 0,
    {
        0
    }

    /// The combinations whose amount precision is known.
    pub open spec fn amount_precision_defined(self) -> bool {
        match self.exc {
            Exchange::Gmo => (self.base == Currency::BTC || self.base == Currency::XRP)
                && self.kind != SymbolType::Margin,
            Exchange::Binance => false,
            _ => true,
        }
    }

    pub open spec fn amount_precision_spec(self) -> int {
        match self.exc {
            Exchange::Gmo => match (self.base, self.kind) {
                (Currency::BTC, SymbolType::Perp) => -2,
                (Currency::BTC, _) => -4,
                (Currency::XRP, SymbolType::Perp) => 1,
                (Currency::XRP, _) => 0,
                _ => 0,
            },
            Exchange::Bitflyer => -8,
            Exchange::Coincheck => -8,
            Exchange::Tachibana => 2,
            _ => 0,
        }
    }

    /// Exponent of the smallest order amount step on this market.
    pub fn amount_precision(&self) -> (r: i32)
        requires
            self.amount_precision_defined(),
        ensures
            r == self.amount_precision_spec(),
    {
        match self.exc {
            Exchange::Gmo => match (self.base, self.kind) {
                (Currency::BTC, SymbolType::Perp) => -2,
                (Currency::BTC, _) => -4,
                (Currency::XRP, SymbolType::Perp) => 1,
                (Currency::XRP, _) => 0,
                _ => 0,
            },
            Exchange::Bitflyer => -8,
            Exchange::Coincheck => -8,
            Exchange::Tachibana => 2,
            _ => 0,
        }
    }

    /// The combinations whose price precision is known.
    pub open spec fn price_precision_defined(self) -> bool {
        match self.exc {
            Exchange::Gmo => self.base == Currency::BTC || self.base == Currency::XRP,
            Exchange::Binance => false,
            _ => true,
        }
    }

    pub open spec fn price_precision_spec(self) -> int {
        match self.exc {
            Exchange::Gmo => match self.base {
                Currency::BTC => 0,
                Currency::XRP => -3,
                _ => 0,
            },
            Exchange::Bitflyer => 0,
            Exchange::Coincheck => 0,
            Exchange::Tachibana => -1,
            _ => 0,
        }
    }

    /// Exponent of the smallest price step on this market.
    pub fn price_precision(&self) -> (r: i32)
        requires
            self.price_precision_defined(),
        ensures
            r == self.price_precision_spec(),
    {
        match self.exc {
            Exchange::Gmo => match self.base {
                Currency::BTC => 0,
                Currency::XRP => -3,
                _ => 0,
            },
            Exchange::Bitflyer => 0,
            Exchange::Coincheck => 0,
            Exchange::Tachibana => -1,
            _ => 0,
        }
    }
}

} // verus!
