//! Configuration, its defaults, and the account table used for basic
//! authentication.

use vstd::prelude::*;

use crate::minio::UploadMode;
use crate::text::{owned, str_eq};

verus! {

/// The port served when the configuration names none.
pub const DEFAULT_PORT: &'static str = "8080";

/// Connection settings of the object store.
#[derive(Debug, Clone)]
pub struct MinioConfig {
    pub endpoint: String,
    pub bucket_name: String,
    pub ssl: bool,
    pub access_key: String,
    pub secret_access_key: String,
}

/// One user allowed to log in.
#[derive(Debug)]
pub struct AccountConfig {
    pub username: String,
    pub password: String,
}

impl Clone for AccountConfig {
    fn clone(&self) -> (r: Self)
        ensures
            r == *self,
    {
        AccountConfig { username: self.username.clone(), password: self.password.clone() }
    }
}

/// Settings of the WebDAV server itself.
#[derive(Debug, Clone)]
pub struct AppSection {
    pub port: String,
    pub accounts: Vec<AccountConfig>,
    pub upload_mode: UploadMode,
}

/// The whole configuration.
#[derive(Debug, Clone)]
pub struct Config {
    pub app: AppSection,
    pub minio: MinioConfig,
}

/// `c` is the default configuration.
pub open spec fn is_default_config(c: Config) -> bool {
    &&& c.app.port@ == DEFAULT_PORT@
    &&& c.app.accounts@.len() == 0
    &&& c.app.upload_mode == UploadMode::Memory
    &&& c.minio.endpoint@.len() == 0
    &&& c.minio.bucket_name@.len() == 0
    &&& !c.minio.ssl
    &&& c.minio.access_key@.len() == 0
    &&& c.minio.secret_access_key@.len() == 0
}

impl Default for Config {
    fn default() -> (c: Self)
        ensures
            is_default_config(c),
    {
        Config {
            app: AppSection { port: owned(DEFAULT_PORT), accounts: Vec::new(), upload_mode: UploadMode::Memory },
            minio: MinioConfig {
                endpoint: String::new(),
                bucket_name: String::new(),
                ssl: false,
                access_key: String::new(),
                secret_access_key: String::new(),
            },
        }
    }
}

impl Config {
    /// The configuration in effect, given what was read and parsed from the
    /// configuration file (`None` when it could not be read or parsed): the
    /// parsed one, or else the default; an empty port becomes the default port.
    pub fn from_parsed(parsed: Option<Config>) -> (c: Config)
        ensures
            parsed is None ==> is_default_config(c),
            parsed matches Some(p) ==> c.minio == p.minio && c.app.accounts == p.app.accounts
                && c.app.upload_mode == p.app.upload_mode && c.app.port@ == if p.app.port@.len() == 0 {
                DEFAULT_PORT@
            } else {
                p.app.port@
            },
            c.app.port@.len() > 0,
    {
        proof {
            reveal_strlit("8080");
        }
        let mut c = match parsed {
            Some(p) => p,
            None => Config::default(),
        };
        if c.app.port.as_str().is_empty() {
            c.app.port = owned(DEFAULT_PORT);
        }
        c
    }
}

// ---------------------------------------------------------------------------
// Accounts
// ---------------------------------------------------------------------------

/// The passwords by user name, where a later account of the same name
/// replaces an earlier one.
pub open spec fn accounts_map(accounts: Seq<AccountConfig>) -> Map<Seq<char>, Seq<char>>
    decreases accounts.len(),
{
    if accounts.len() == 0 {
        Map::empty()
    } else {
        accounts_map(accounts.drop_last()).insert(accounts.last().username@, accounts.last().password@)
    }
}

/// `user` logs in with `password` (none when the request gave no password).
pub open spec fn authorized(
    accounts: Map<Seq<char>, Seq<char>>,
    user: Seq<char>,
    password: Option<Seq<char>>,
) -> bool {
    accounts.contains_key(user) && password == Some(accounts[user])
}

/// The users allowed to log in and their passwords.
#[derive(Debug, Clone)]
pub struct AccountTable {
    accounts: Vec<AccountConfig>,
}

impl View for AccountTable {
    type V = Map<Seq<char>, Seq<char>>;

    closed spec fn view(&self) -> Map<Seq<char>, Seq<char>> {
        accounts_map(self.accounts@)
    }
}

/// Accounts after position `k` that do not name `user` leave its entry as
/// it was after the first `k` accounts.
proof fn lemma_accounts_map_take(accounts: Seq<AccountConfig>, user: Seq<char>, k: int)
    requires
        0 <= k <= accounts.len(),
        forall|j: int| k <= j < accounts.len() ==> accounts[j].username@ != user,
    ensures
        accounts_map(accounts).contains_key(user) == accounts_map(accounts.take(k)).contains_key(user),
        accounts_map(accounts).contains_key(user) ==> accounts_map(accounts)[user] == accounts_map(
            accounts.take(k),
        )[user],
    decreases accounts.len() - k,
{
    if k < accounts.len() {
        assert(accounts.drop_last().take(k) =~= accounts.take(k));
        lemma_accounts_map_take(accounts.drop_last(), user, k);
    } else {
        assert(accounts.take(k) =~= accounts);
    }
}

impl AccountTable {
    /// The table of the configured accounts.
    pub fn from_accounts(accounts: &Vec<AccountConfig>) -> (t: AccountTable)
        ensures
            t@ == accounts_map(accounts@),
    {
        let copy = accounts.clone();
        assert(copy@ =~= accounts@);
        AccountTable { accounts: copy }
    }

    /// The password of `user`, if the user has an account.
    pub fn password_of(&self, user: &str) -> (r: Option<String>)
        ensures
            self@.contains_key(user@) ==> (r matches Some(p) && p@ == self@[user@]),
            !self@.contains_key(user@) ==> r is None,
    {
        let n = self.accounts.len();
        let mut k: usize = n;
        while k > 0
            invariant
                n == self.accounts@.len(),
                k <= n,
                forall|j: int| k <= j < n ==> self.accounts@[j].username@ != user@,
            decreases k,
        {
            let a = &self.accounts[k - 1];
            if str_eq(a.username.as_str(), user) {
                proof {
                    lemma_accounts_map_take(self.accounts@, user@, k as int);
                    let t = self.accounts@.take(k as int);
                    assert(t.last() == self.accounts@[k - 1]);
                }
                return Some(a.password.clone());
            }
            k = k - 1;
        }
        proof {
            lemma_accounts_map_take(self.accounts@, user@, 0);
            assert(self.accounts@.take(0) =~= Seq::<AccountConfig>::empty());
        }
        None
    }

    /// Whether `user` may log in with `password`: the user has an account and
    /// the request gave exactly its password.
    pub fn is_authorized(&self, user: &str, password: Option<&str>) -> (ok: bool)
        ensures
            ok == authorized(self@, user@, match password {
                Some(p) => Some(p@),
                None => None,
            }),
    {
        match self.password_of(user) {
            Some(expected) => match password {
                Some(p) => str_eq(p, expected.as_str()),
                None => false,
            },
            None => false,
        }
    }
}

/// The last account of a name decides its password, whatever accounts of
/// that name come before it.
pub proof fn law_last_account_wins(accounts: Seq<AccountConfig>, i: int)
    requires
        0 <= i < accounts.len(),
        forall|j: int| i < j < accounts.len() ==> accounts[j].username@ != accounts[i].username@,
    ensures
        accounts_map(accounts).contains_key(accounts[i].username@),
        accounts_map(accounts)[accounts[i].username@] == accounts[i].password@,
{
    let user = accounts[i].username@;
    lemma_accounts_map_take(accounts, user, i + 1);
    assert(accounts.take(i + 1).last() == accounts[i]);
}

/// A user who gives no password is never let in, and neither is a user
/// without an account.
pub proof fn law_no_password_no_entry(accounts: Map<Seq<char>, Seq<char>>, user: Seq<char>, password: Option<Seq<char>>)
    ensures
        password is None ==> !authorized(accounts, user, password),
        !accounts.contains_key(user) ==> !authorized(accounts, user, password),
{
}

} // verus!
