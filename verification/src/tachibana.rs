//! Tachibana request and response shapes and their constructors.
//! Serialization and transport live with the host.

use vstd::prelude::*;
use vstd::string::StringExecFns;

use crate::float_exp::FloatExp;
use crate::order_types::Side;
use crate::symbol::Currency;

verus! {

#[derive(Debug, Clone, Copy, PartialEq, Eq, Structural)]
pub enum TaxAccountType {
    Specific,
}

#[derive(Debug, Clone, Copy, PartialEq, Eq, Structural)]
pub enum StockMarket {
    Tsc,
}

#[derive(Debug, Clone, Copy, PartialEq, Eq, Structural)]
pub enum OrderSide {
    Buy,
    Sell,
}

impl OrderSide {
    /// The wire order side of a logical side.
    pub fn from_side(side: Side) -> (r: OrderSide)
        ensures
            r == (match side {
                Side::Buy => OrderSide::Buy,
                Side::Sell => OrderSide::Sell,
            }),
    {
        match side {
            Side::Buy => OrderSide::Buy,
            Side::Sell => OrderSide::Sell,
        }
    }
}

/// Order timing; `Unspecified` is the wire's empty choice.
#[derive(Debug, Clone, Copy, PartialEq, Eq, Structural)]
pub enum OrderTime {
    Unspecified,
    Opening,
    Closing,
    MarketIfNotExecuted,
}

#[derive(Debug, Clone, Copy, PartialEq, Eq, Structural)]
pub enum OrderPrice {
    Unspecified,
    Market,
}

#[derive(Debug, Clone, Copy, PartialEq, Eq, Structural)]
pub enum TradingType {
    Spot,
    OpenSystemMargin,
    CloseSystemMargin,
    OpenGeneralMargin,
    CloseGeneralMargin,
}

#[derive(Debug, Clone, Copy, PartialEq, Eq, Structural)]
pub enum TimeInForce {
    Interday,
}

#[derive(Debug, Clone, Copy, PartialEq, Eq, Structural)]
pub enum StopOrderType {
    Unspecified,
}

#[derive(Debug, Clone, Copy, PartialEq, Eq, Structural)]
pub enum StopOrderTriggerPrice {
    Unspecified,
}

#[derive(Debug, Clone, Copy, PartialEq, Eq, Structural)]
pub enum StopOrderPrice {
    Unspecified,
}

/// Which margin position a close settles first.
#[derive(Debug, Clone, Copy, PartialEq, Eq, Structural)]
pub enum CloseMarginOrder {
    Unspecified,
    DateTime,
}

#[derive(Debug, Clone, Copy, PartialEq, Eq, Structural)]
pub enum PositionTaxAccountType {
    Unspecified,
}

#[derive(Debug)]
pub struct LoginRequest {
    pub s_user_id: String,
    pub s_password: String,
}

#[derive(Debug)]
pub struct LogoutRequest;

/// A new stock order, bound to a specific tax account and market.
#[derive(Debug)]
pub struct OrderRequest {
    pub s_zyoutoeki_kazei_c: TaxAccountType,
    pub s_issue_code: Currency,
    pub s_sizyou_c: StockMarket,
    pub s_baibai_kubun: OrderSide,
    pub s_condition: OrderTime,
    pub s_order_price: OrderPrice,
    pub s_order_suryou: FloatExp,
    pub s_genkin_shinyou_kubun: TradingType,
    pub s_order_expire_day: TimeInForce,
    pub s_gyakusasi_order_type: StopOrderType,
    pub s_gyakusasi_zyouken: StopOrderTriggerPrice,
    pub s_gyakusasi_price: StopOrderPrice,
    pub s_tatebi_type: CloseMarginOrder,
    pub s_tategyoku_zyoutoeki_kazei_c: PositionTaxAccountType,
    pub s_second_password: String,
}

impl OrderRequest {
    /// An interday order with the fixed account, market and stop defaults;
    /// margin closes settle oldest first.
    pub fn new(base: Currency, side: OrderSide, order_time: OrderTime, price: OrderPrice, amount:
        FloatExp, trading_type: TradingType) -> (r: Self)
        ensures
            r.s_zyoutoeki_kazei_c == TaxAccountType::Specific,
            r.s_issue_code == base,
            r.s_sizyou_c == StockMarket::Tsc,
            r.s_baibai_kubun == side,
            r.s_condition == order_time,
            r.s_order_price == price,
            r.s_order_suryou == amount,
            r.s_genkin_shinyou_kubun == trading_type,
            r.s_order_expire_day == TimeInForce::Interday,
            r.s_gyakusasi_order_type == StopOrderType::Unspecified,
            r.s_gyakusasi_zyouken == StopOrderTriggerPrice::Unspecified,
            r.s_gyakusasi_price == StopOrderPrice::Unspecified,
            r.s_tatebi_type == (match trading_type {
                TradingType::CloseSystemMargin | TradingType::CloseGeneralMargin
                    => CloseMarginOrder::DateTime,
                _ => CloseMarginOrder::Unspecified,
            }),
            r.s_tategyoku_zyoutoeki_kazei_c == PositionTaxAccountType::Unspecified,
            r.s_second_password@ == Seq::<char>::empty(),
    {
        OrderRequest {
            s_zyoutoeki_kazei_c: TaxAccountType::Specific,
            s_issue_code: base,
            s_sizyou_c: StockMarket::Tsc,
            s_baibai_kubun: side,
            s_condition: order_time,
            s_order_price: price,
            s_order_suryou: amount,
            s_genkin_shinyou_kubun: trading_type,
            s_order_expire_day: TimeInForce::Interday,
            s_gyakusasi_order_type: StopOrderType::Unspecified,
            s_gyakusasi_zyouken: StopOrderTriggerPrice::Unspecified,
            s_gyakusasi_price: StopOrderPrice::Unspecified,
            s_tatebi_type: match trading_type {
                TradingType::CloseSystemMargin | TradingType::CloseGeneralMargin
                    => CloseMarginOrder::DateTime,
                _ => CloseMarginOrder::Unspecified,
            },
            s_tategyoku_zyoutoeki_kazei_c: PositionTaxAccountType::Unspecified,
            s_second_password: String::new(),
        }
    }
}

#[derive(Debug)]
pub struct MarginBalanceRequest {
    pub s_hituke_index: u32,
}

#[derive(Debug, Clone, Copy, PartialEq, Eq, Structural)]
pub enum MarginPositionRequestBase {
    Currency(Currency),
    All,
}

#[derive(Debug)]
pub struct MarginPositionRequest {
    pub s_issue_code: MarginPositionRequestBase,
}

#[derive(Debug)]
pub struct PriceHistoryRequest {
    pub s_issue_code: Currency,
    pub s_sizyou_c: StockMarket,
}

#[derive(Debug, Clone, Copy, PartialEq, Eq, Structural)]
pub enum PriceType {
    /// The previous business day's close.
    PreviousClose,
    LastPrice,
    LastPriceTime,
}

#[derive(Debug)]
pub struct PriceRequest {
    pub s_target_issue_code: Vec<Currency>,
    pub s_target_column: Vec<PriceType>,
}

#[derive(Debug, Clone, Copy, PartialEq, Eq, Structural)]
pub enum SystemDataCommand {
    BusinessDate,
}

/// The comma-joined column list that one command pulls.
pub open spec fn sysdata_group() -> Seq<char> {
    "sDayKey,sTheDay,sMaeEigyouDay_3,sYokuEigyouDay_1,sKabuUkewatasiDay,sKabuKariUkewatasiDay"@
}

/// The column list of `n` commands: the groups, comma-separated.
pub open spec fn sysdata_columns(n: nat) -> Seq<char>
    decreases n,
{
    if n == 0 {
        Seq::empty()
    } else if n == 1 {
        sysdata_group()
    } else {
        sysdata_columns((n - 1) as nat) + ","@ + sysdata_group()
    }
}

#[derive(Debug)]
pub struct SystemDataRequest {
    pub s_target_clmid: Vec<SystemDataCommand>,
    pub s_target_column: String,
}

impl SystemDataRequest {
    /// A master-data request for the given commands, with the full column
    /// list each command needs.
    pub fn new(commands: Vec<SystemDataCommand>) -> (r: Self)
        ensures
            r.s_target_clmid@ == commands@,
            r.s_target_column@ == sysdata_columns(commands@.len()),
    {
        let n = commands.len();
        let mut cols = String::new();
        let mut i: usize = 0;
        while i < n
            invariant
                i <= n,
                n == commands@.len(),
                cols@ == sysdata_columns(i as nat),
            decreases n - i,
        {
            if i == 0 {
                cols.append(
                    "sDayKey,sTheDay,sMaeEigyouDay_3,sYokuEigyouDay_1,sKabuUkewatasiDay,sKabuKariUkewatasiDay",
                );
            } else {
                cols.append(",");
                cols.append(
                    "sDayKey,sTheDay,sMaeEigyouDay_3,sYokuEigyouDay_1,sKabuUkewatasiDay,sKabuKariUkewatasiDay",
                );
            }
            proof {
                assert(cols@ =~= sysdata_columns((i + 1) as nat));
            }
            i = i + 1;
        }
        SystemDataRequest { s_target_clmid: commands, s_target_column: cols }
    }
}

#[derive(Debug)]
pub struct RestResponse<T>(pub T);

#[derive(Debug)]
pub struct SimpleResponse {
    pub s_clmid: String,
}

#[derive(Debug)]
pub struct LoginResponse {
    pub s_url_request: String,
    pub s_url_master: String,
    pub s_url_price: String,
    pub s_url_event: String,
}

#[derive(Debug)]
pub struct MarginBalanceResponse {
    pub s_hituke: String,
    pub s_azukari_kin: i64,
    pub s_sinyou_sinkidate_kanougaku: i64,
}

/// An issue code that is either a known currency or a raw wire string.
#[derive(Debug, Clone)]
pub enum CodeResponse {
    Defined(Currency),
    Raw(String),
}

#[derive(Debug, Clone, Copy, PartialEq, Eq, Structural)]
pub enum MarginPositionType {
    Unspecified,
    SystemHalfYear,
    SystemUnlimited,
    GeneralHalfYear,
    GeneralUnlimited,
}

#[derive(Debug, Clone, Copy, PartialEq, Eq, Structural)]
pub enum DayFlag {
    Today,
    Tomorrow,
}

} // verus!
