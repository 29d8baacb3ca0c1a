use bot::coincheck::{cancel_order_path, OrderRequest, RestErrResponse, RestResponse, TimeInForce};
use bot::credentials::{ApiCredentials, Credentials, MailCredentials, TachibanaCredentials};
use bot::float_exp::FloatExp;
use bot::gmo::{GmoClientResponse, GmoClientResponseMessage, GmoError, WsErrResponse};
use bot::order_types::Side;
use bot::symbol::{Currency, Exchange, Symbol, SymbolType};
use bot::tachibana;

fn pair() -> Symbol {
    Symbol::new(Currency::BTC, Currency::JPY, SymbolType::Spot, Exchange::Coincheck)
}

#[test]
fn test_load_config() {
    // the credential record of a parsed configuration
    let creds = Credentials {
        gmo: ApiCredentials { api_key: "SECRET-REDACTED".to_string(), api_secret: "SECRET-REDACTED".to_string() },
        bitflyer: ApiCredentials { api_key: "SECRET-REDACTED".to_string(), api_secret: "SECRET-REDACTED".to_string() },
        coincheck: ApiCredentials { api_key: "SECRET-REDACTED".to_string(), api_secret: "SECRET-REDACTED".to_string() },
        tachibana: TachibanaCredentials {
            user_id: "u".to_string(),
            password1: "SECRET-REDACTED".to_string(),
            password2: "SECRET-REDACTED".to_string(),
        },
        mail: MailCredentials {
            user: "m".to_string(),
            password: "SECRET-REDACTED".to_string(),
            sendto: "t".to_string(),
        },
    };
    assert!(creds.gmo.api_key.is_ascii());
}

#[test]
fn test_cancel_order_path() {
    assert_eq!(cancel_order_path(5710599665), "/api/exchange/orders/5710599665");
}

#[test]
fn test_rest_response_into_result() {
    let ok: RestResponse<i64> = RestResponse::Success(7);
    assert_eq!(ok.into_result().unwrap(), 7);
    let err: RestResponse<i64> = RestResponse::Failure(RestErrResponse {
        error: "Rate deviates from actual price range".to_string(),
        success: false,
    });
    let e = err.into_result().unwrap_err();
    assert!(e.is_price_range_error());
    let other = RestErrResponse { error: "insufficient funds".to_string(), success: false };
    assert!(!other.is_price_range_error());
}

#[test]
fn test_coincheck_orders() {
    let limit = OrderRequest::limit_order(
        Side::Buy,
        pair(),
        FloatExp::new(1_000_000, 0),
        FloatExp::new(5, -3),
        Some(TimeInForce::PostOnly),
    );
    assert!(matches!(limit, OrderRequest::Buy(_)));
    let market = OrderRequest::market_order(Side::Sell, pair(), FloatExp::new(5, -3), None);
    assert!(matches!(market, OrderRequest::MarketSell(_)));
}

#[test]
fn test_ws_response() {
    let err = WsErrResponse { error: "ERR-5003 Request too many.".to_string() };
    assert!(err.is_too_many_request());
    let fine = WsErrResponse { error: "something else".to_string() };
    assert!(!fine.is_too_many_request());
}

#[test]
fn test_gmo_into_result() {
    let ok: GmoClientResponse<i64> =
        GmoClientResponse { status: 0, data: Some(42), messages: None, responsetime: None };
    assert_eq!(ok.into_result().unwrap(), 42);

    let maintenance: GmoClientResponse<i64> = GmoClientResponse {
        status: 0,
        data: None,
        messages: Some(vec![GmoClientResponseMessage {
            message_code: "ERR-5201".to_string(),
            message_string: "Under Maintenance, please wait".to_string(),
        }]),
        responsetime: None,
    };
    assert!(matches!(maintenance.into_result().unwrap_err(), GmoError::Maintenance));

    let other: GmoClientResponse<i64> = GmoClientResponse {
        status: 0,
        data: None,
        messages: Some(vec![GmoClientResponseMessage {
            message_code: "ERR-201".to_string(),
            message_string: "Margin call".to_string(),
        }]),
        responsetime: None,
    };
    match other.into_result().unwrap_err() {
        GmoError::ClientMessage { code, message } => {
            assert_eq!(code, "ERR-201");
            assert_eq!(message, "Margin call");
        },
        _ => panic!("expected a client message"),
    }
}

#[test]
fn test_tachibana_order_request() {
    let req = tachibana::OrderRequest::new(
        Currency::T9432,
        tachibana::OrderSide::from_side(Side::Buy),
        tachibana::OrderTime::Unspecified,
        tachibana::OrderPrice::Market,
        FloatExp::new(100, 0),
        tachibana::TradingType::CloseSystemMargin,
    );
    assert_eq!(req.s_issue_code, Currency::T9432);
    assert_eq!(req.s_baibai_kubun, tachibana::OrderSide::Buy);
    assert_eq!(req.s_tatebi_type, tachibana::CloseMarginOrder::DateTime);
    assert_eq!(req.s_second_password, "");
}

#[test]
fn test_tachibana_system_data_request() {
    let req = tachibana::SystemDataRequest::new(vec![tachibana::SystemDataCommand::BusinessDate]);
    assert_eq!(
        req.s_target_column,
        "sDayKey,sTheDay,sMaeEigyouDay_3,sYokuEigyouDay_1,sKabuUkewatasiDay,sKabuKariUkewatasiDay"
    );
    let two = tachibana::SystemDataRequest::new(vec![
        tachibana::SystemDataCommand::BusinessDate,
        tachibana::SystemDataCommand::BusinessDate,
    ]);
    assert!(two.s_target_column.ends_with("sKabuKariUkewatasiDay"));
    assert_eq!(two.s_target_column.matches("sDayKey").count(), 2);
}
