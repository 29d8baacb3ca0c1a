//! API credential records. Loading them from configuration is the host's
//! concern; the library only carries the values.

use vstd::prelude::*;

verus! {

#[derive(Debug, Clone)]
pub struct ApiCredentials {
    pub api_key: String,
    pub api_secret: String,
}

#[derive(Debug, Clone)]
pub struct MailCredentials {
    pub user: String,
    pub password: String,
    pub sendto: String,
}

#[derive(Debug, Clone)]
pub struct TachibanaCredentials {
    pub user_id: String,
    pub password1: String,
    pub password2: String,
}

#[derive(Debug)]
pub struct Credentials {
    pub gmo: ApiCredentials,
    pub bitflyer: ApiCredentials,
    pub coincheck: ApiCredentials,
    pub tachibana: TachibanaCredentials,
    pub mail: MailCredentials,
}

} // verus!
