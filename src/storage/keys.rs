//! The logical keys under which items, lists, users, models and
//! activities are stored.
use crate::storage::items::scope::{scope_name, TimeScope};
use vstd::prelude::*;
use vstd::string::StringExecFns;

verus! {

/// The `n` lowest hexadecimal digits of `x`, most significant first, in
/// lower case.
pub open spec fn hex_digits(x: nat, n: nat) -> Seq<char>
    decreases n,
{
    if n == 0 {
        Seq::empty()
    } else {
        hex_digits(x / 16, (n - 1) as nat).push("0123456789abcdef"@[(x % 16) as int])
    }
}

/// The hyphenated text of the id whose 128-bit value is `id`: groups of
/// 8, 4, 4, 4 and 12 lower-case hexadecimal digits, most significant first.
pub open spec fn id_text(id: u128) -> Seq<char> {
    hex_digits(id as nat / 0x1_0000_0000_0000_0000_0000_0000, 8) + "-"@ + hex_digits(
        id as nat / 0x1_0000_0000_0000_0000_0000,
        4,
    ) + "-"@ + hex_digits(id as nat / 0x1_0000_0000_0000_0000, 4) + "-"@ + hex_digits(
        id as nat / 0x1_0000_0000_0000,
        4,
    ) + "-"@ + hex_digits(id as nat, 12)
}

/// Relies on uuid's `Uuid::from_u128` and its `Display` impl, which writes
/// the hyphenated lower-case form.
#[verifier::external_body]
fn uuid_text(id: u128) -> (r: String)
    ensures
        r@ == id_text(id),
{
    uuid::Uuid::from_u128(id).to_string()
}

/// `prefix`, then `a`, then `:`, then `b`.
fn key2(prefix: &str, a: &str, b: &str) -> (r: String)
    ensures
        r@ == prefix@ + a@ + ":"@ + b@,
{
    let mut r = String::from_str(prefix);
    r.append(a);
    r.append(":");
    r.append(b);
    r
}

/// `prefix`, then `a`.
fn key1(prefix: &str, a: &str) -> (r: String)
    ensures
        r@ == prefix@ + a@,
{
    let mut r = String::from_str(prefix);
    r.append(a);
    r
}

/// The names of the databases and the layout of the keys in them.
#[derive(Debug, Clone)]
pub struct Keys {
    pub item_database: String,
    pub user_database: String,
    pub model_database: String,
    pub activity_database: String,
}

impl Keys {
    pub fn new() -> (r: Keys)
        ensures
            r.item_database@ == "items"@,
            r.user_database@ == "users"@,
            r.model_database@ == "models"@,
            r.activity_database@ == "activity"@,
    {
        Keys {
            item_database: String::from_str("items"),
            user_database: String::from_str("users"),
            model_database: String::from_str("models"),
            activity_database: String::from_str("activity"),
        }
    }

    pub fn item_key(&self, part: &str, item: u128) -> (r: String)
        ensures
            r@ == "item:definition:"@ + part@ + ":"@ + id_text(item),
    {
        let t = uuid_text(item);
        key2("item:definition:", part, t.as_str())
    }

    pub fn item_near_key(&self, part: &str, item: u128) -> (r: String)
        ensures
            r@ == "item:list:near:"@ + part@ + ":"@ + id_text(item),
    {
        let t = uuid_text(item);
        key2("item:list:near:", part, t.as_str())
    }

    pub fn item_top_key(&self, part: &str, scope: TimeScope) -> (r: String)
        ensures
            r@ == "item:list:top:"@ + part@ + ":"@ + scope_name(scope),
    {
        key2("item:list:top:", part, scope.name())
    }

    pub fn item_pop_key(&self, part: &str, scope: TimeScope) -> (r: String)
        ensures
            r@ == "item:list:pop:"@ + part@ + ":"@ + scope_name(scope),
    {
        key2("item:list:pop:", part, scope.name())
    }

    pub fn item_recent_key(&self, part: &str) -> (r: String)
        ensures
            r@ == "item:list:recent:"@ + part@,
    {
        key1("item:list:recent:", part)
    }

    pub fn user_key(&self, part: &str, id: &str) -> (r: String)
        ensures
            r@ == "user:data:"@ + part@ + ":"@ + id@,
    {
        key2("user:data:", part, id)
    }

    pub fn model_key(&self, part: &str) -> (r: String)
        ensures
            r@ == "model:scope:"@ + part@,
    {
        key1("model:scope:", part)
    }

    pub fn default_model_key(&self) -> (r: String)
        ensures
            r@ == "model:default"@,
    {
        String::from_str("model:default")
    }

    pub fn activity_key(&self, part: &str, id: u128) -> (r: String)
        ensures
            r@ == "activity:item:"@ + part@ + ":"@ + id_text(id),
    {
        let t = uuid_text(id);
        key2("activity:item:", part, t.as_str())
    }

    pub fn activity_list_key(&self, part: &str) -> (r: String)
        ensures
            r@ == "activity:list:scope:"@ + part@,
    {
        key1("activity:list:scope:", part)
    }

    pub fn default_activity_list_key(&self) -> (r: String)
        ensures
            r@ == "activity:list:default"@,
    {
        String::from_str("activity:list:default")
    }

    /// The key of the near list of `item`, in parts.
    pub fn near_list_key(&self, part: &str, item: u128) -> (r: ListKey)
        ensures
            r.kind@ == "near"@,
            r.part@ == part@,
            r.item@ == id_text(item),
    {
        ListKey { kind: String::from_str("near"), part: String::from_str(part), item: uuid_text(item) }
    }

    /// The key of the top list of `scope`, in parts.
    pub fn top_list_key(&self, part: &str, scope: TimeScope) -> (r: ListKey)
        ensures
            r.kind@ == "top"@,
            r.part@ == part@,
            r.item@ == scope_name(scope),
    {
        ListKey { kind: String::from_str("top"), part: String::from_str(part), item: String::from_str(scope.name()) }
    }

    /// The key of the popular list of `scope`, in parts.
    pub fn pop_list_key(&self, part: &str, scope: TimeScope) -> (r: ListKey)
        ensures
            r.kind@ == "pop"@,
            r.part@ == part@,
            r.item@ == scope_name(scope),
    {
        ListKey { kind: String::from_str("pop"), part: String::from_str(part), item: String::from_str(scope.name()) }
    }
}

/// A ranked list kept under several keys: its entries, its modification
/// counter and its epoch.
#[derive(Debug, Clone)]
pub struct ListKey {
    pub kind: String,
    pub part: String,
    pub item: String,
}

pub open spec fn list_base(k: ListKey) -> Seq<char> {
    "item:list:"@ + k.kind@ + ":"@ + k.part@ + ":"@ + k.item@
}

impl ListKey {
    pub fn base_key(&self) -> (r: String)
        ensures
            r@ == list_base(*self),
    {
        let mut r = key2("item:list:", self.kind.as_str(), self.part.as_str());
        r.append(":");
        r.append(self.item.as_str());
        r
    }

    pub fn list_key(&self) -> (r: String)
        ensures
            r@ == list_base(*self) + ":list"@,
    {
        let mut r = self.base_key();
        r.append(":list");
        r
    }

    pub fn nmods_key(&self) -> (r: String)
        ensures
            r@ == list_base(*self) + ":nmods"@,
    {
        let mut r = self.base_key();
        r.append(":nmods");
        r
    }

    pub fn epoch_key(&self) -> (r: String)
        ensures
            r@ == list_base(*self) + ":epoch"@,
    {
        let mut r = self.base_key();
        r.append(":epoch");
        r
    }
}

} // verus!
