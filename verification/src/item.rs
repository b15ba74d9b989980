//! Item get/set rules.

use vstd::prelude::*;

use crate::config::{sanitize_service_name, sanitized_service};
use crate::constants::PAM_BAD_ITEM;
use crate::error::{PamError, PamStatus};
use crate::securemem::SecretString;
use crate::types::{item_raw, ItemType};

verus! {

/// Validate item type for application callers: the item with that number,
/// or `PAM_BAD_ITEM` when no item has it.
pub fn validate_app_item(item_type: i32) -> (r: Result<ItemType, PamError>)
    ensures
        match r {
            Ok(t) => item_raw(t) == item_type,
            Err(e) => e == PamError::Status(PamStatus(PAM_BAD_ITEM)) && forall|t: ItemType|
                item_raw(t) != item_type,
        },
{
    match ItemType::from_raw(item_type) {
        Some(t) => Ok(t),
        None => Err(PamError::Status(PamStatus::new(PAM_BAD_ITEM))),
    }
}

/// The items whose value is a string.
pub open spec fn spec_is_string_item(item: ItemType) -> bool {
    match item {
        ItemType::Service | ItemType::User | ItemType::Tty | ItemType::RHost | ItemType::AuthTok
        | ItemType::OldAuthTok | ItemType::RUser | ItemType::UserPrompt | ItemType::XDisplay
        | ItemType::AuthTokType => true,
        _ => false,
    }
}

/// Whether the item is a string item.
pub fn is_string_item(item: ItemType) -> (r: bool)
    ensures
        r == spec_is_string_item(item),
{
    match item {
        ItemType::Service | ItemType::User | ItemType::Tty | ItemType::RHost | ItemType::AuthTok
        | ItemType::OldAuthTok | ItemType::RUser | ItemType::UserPrompt | ItemType::XDisplay
        | ItemType::AuthTokType => true,
        _ => false,
    }
}

/// Items that applications must not set directly (module-only) — Linux-PAM
/// rules: the authentication tokens.
pub fn app_may_set(item: ItemType) -> (r: bool)
    ensures
        r == !(item == ItemType::AuthTok || item == ItemType::OldAuthTok),
{
    match item {
        ItemType::AuthTok | ItemType::OldAuthTok => false,
        _ => true,
    }
}


/// The string items of a PAM transaction.
pub struct ItemStore {
    service_name: String,
    user: Option<String>,
    tty: Option<String>,
    rhost: Option<String>,
    ruser: Option<String>,
    user_prompt: Option<String>,
    xdisplay: Option<String>,
    authtok_type: Option<String>,
    authtok: Option<SecretString>,
    oldauthtok: Option<SecretString>,
}

/// The characters of an optional string.
pub open spec fn opt_view(o: Option<String>) -> Option<Seq<char>> {
    match o {
        Some(s) => Some(s@),
        None => None,
    }
}

/// The characters of an optional secret.
pub open spec fn secret_view(o: Option<SecretString>) -> Option<Seq<char>> {
    match o {
        Some(s) => Some(s@),
        None => None,
    }
}

/// The characters of an optional string slice.
pub open spec fn str_view(o: Option<&str>) -> Option<Seq<char>> {
    match o {
        Some(s) => Some(s@),
        None => None,
    }
}

/// The status of setting a non-string item.
pub open spec fn bad_item() -> PamError {
    PamError::Status(PamStatus(PAM_BAD_ITEM))
}

impl ItemStore {
    /// The value of `item`: the service name is always set; items that are
    /// not strings have none.
    pub closed spec fn value(&self, item: ItemType) -> Option<Seq<char>> {
        match item {
            ItemType::Service => Some(self.service_name@),
            ItemType::User => opt_view(self.user),
            ItemType::Tty => opt_view(self.tty),
            ItemType::RHost => opt_view(self.rhost),
            ItemType::RUser => opt_view(self.ruser),
            ItemType::UserPrompt => opt_view(self.user_prompt),
            ItemType::XDisplay => opt_view(self.xdisplay),
            ItemType::AuthTokType => opt_view(self.authtok_type),
            ItemType::AuthTok => secret_view(self.authtok),
            ItemType::OldAuthTok => secret_view(self.oldauthtok),
            _ => None,
        }
    }

    /// The items of a new transaction for `service_name` (already
    /// sanitized) and `user`: the user prompt is `login: `, nothing else is
    /// set.
    pub fn new(service_name: String, user: Option<String>) -> (r: Self)
        ensures
            r.value(ItemType::Service) == Some(service_name@),
            r.value(ItemType::User) == opt_view(user),
            r.value(ItemType::UserPrompt) == Some("login: "@),
            forall|t: ItemType|
                t != ItemType::Service && t != ItemType::User && t != ItemType::UserPrompt
                    ==> #[trigger] r.value(t) is None,
    {
        ItemStore {
            service_name,
            user,
            tty: None,
            rhost: None,
            ruser: None,
            user_prompt: Some(String::from_str("login: ")),
            xdisplay: None,
            authtok_type: None,
            authtok: None,
            oldauthtok: None,
        }
    }

    /// Set string item.  The service name is sanitized (an unusable name is
    /// refused and changes nothing; `None` leaves it as it is); the
    /// conversation, fail-delay and X authentication items are not strings
    /// and give `PAM_BAD_ITEM`.
    pub fn set_item_str(&mut self, item: ItemType, value: Option<&str>, reject_paths: bool) -> (r:
        Result<(), PamError>)
        ensures
            !spec_is_string_item(item) ==> r == Err::<(), PamError>(bad_item()) && forall|
                t: ItemType,
            | #[trigger] final(self).value(t) == old(self).value(t),
            item == ItemType::Service ==> match value {
                None => r is Ok && forall|t: ItemType|
                    #[trigger] final(self).value(t) == old(self).value(t),
                Some(v) => match sanitized_service(v@, reject_paths) {
                    Ok(n) => r is Ok && final(self).value(ItemType::Service) == Some(n) && forall|
                        t: ItemType,
                    | t != ItemType::Service ==> #[trigger] final(self).value(t)
                        == old(self).value(t),
                    Err(m) => r matches Err(PamError::InvalidArgument(e)) && e@ == m
                        && forall|t: ItemType| #[trigger] final(self).value(t) == old(self).value(t),
                },
            },
            spec_is_string_item(item) && item != ItemType::Service ==> r is Ok && final(self).value(
                item,
            ) == str_view(value) && forall|t: ItemType|
                t != item ==> #[trigger] final(self).value(t) == old(self).value(t),
    {
        let owned = match value {
            Some(v) => Some(crate::text::owned(v)),
            None => None,
        };
        match item {
            ItemType::Service => {
                if let Some(v) = value {
                    match sanitize_service_name(v, reject_paths) {
                        Ok(n) => {
                            self.service_name = n;
                        },
                        Err(e) => {
                            return Err(e);
                        },
                    }
                }
            },
            ItemType::User => self.user = owned,
            ItemType::Tty => self.tty = owned,
            ItemType::RHost => self.rhost = owned,
            ItemType::RUser => self.ruser = owned,
            ItemType::UserPrompt => self.user_prompt = owned,
            ItemType::XDisplay => self.xdisplay = owned,
            ItemType::AuthTokType => self.authtok_type = owned,
            ItemType::AuthTok => {
                self.authtok = match value {
                    Some(v) => Some(SecretString::from_str_slice(v)),
                    None => None,
                };
            },
            ItemType::OldAuthTok => {
                self.oldauthtok = match value {
                    Some(v) => Some(SecretString::from_str_slice(v)),
                    None => None,
                };
            },
            ItemType::Conv | ItemType::FailDelay | ItemType::XAuthData => {
                return Err(PamError::Status(PamStatus::new(PAM_BAD_ITEM)));
            },
        }
        Ok(())
    }

    /// Get string item.
    pub fn get_item_str(&self, item: ItemType) -> (r: Option<&str>)
        ensures
            str_view(r) == self.value(item),
    {
        match item {
            ItemType::Service => Some(self.service_name.as_str()),
            ItemType::User => opt_str(&self.user),
            ItemType::Tty => opt_str(&self.tty),
            ItemType::RHost => opt_str(&self.rhost),
            ItemType::RUser => opt_str(&self.ruser),
            ItemType::UserPrompt => opt_str(&self.user_prompt),
            ItemType::XDisplay => opt_str(&self.xdisplay),
            ItemType::AuthTokType => opt_str(&self.authtok_type),
            ItemType::AuthTok => match &self.authtok {
                Some(t) => Some(t.expose()),
                None => None,
            },
            ItemType::OldAuthTok => match &self.oldauthtok {
                Some(t) => Some(t.expose()),
                None => None,
            },
            _ => None,
        }
    }

    /// The user name, when it is set and not empty.
    pub fn known_user(&self) -> (r: Option<&str>)
        ensures
            match self.value(ItemType::User) {
                Some(u) => if u.len() > 0 {
                    r matches Some(x) && x@ == u
                } else {
                    r is None
                },
                None => r is None,
            },
    {
        match &self.user {
            Some(u) => if u.as_str().is_empty() {
                None
            } else {
                Some(u.as_str())
            },
            None => None,
        }
    }

    /// The prompt to ask for the user name with: `prompt`, else the user
    /// prompt item, else `login: `.
    pub fn user_prompt_for<'a>(&'a self, prompt: Option<&'a str>) -> (r: &'a str)
        ensures
            r@ == match prompt {
                Some(p) => p@,
                None => match self.value(ItemType::UserPrompt) {
                    Some(u) => u,
                    None => "login: "@,
                },
            },
    {
        match prompt {
            Some(p) => p,
            None => match &self.user_prompt {
                Some(u) => u.as_str(),
                None => "login: ",
            },
        }
    }

    /// The authentication token, when it is set and not empty.
    pub fn known_authtok(&self) -> (r: Option<&str>)
        ensures
            match self.value(ItemType::AuthTok) {
                Some(t) => if t.len() > 0 {
                    r matches Some(x) && x@ == t
                } else {
                    r is None
                },
                None => r is None,
            },
    {
        match &self.authtok {
            Some(t) => if t.is_empty() {
                None
            } else {
                Some(t.expose())
            },
            None => None,
        }
    }

    /// Forget both authentication tokens (their memory is wiped).
    pub fn clear_tokens(&mut self)
        ensures
            final(self).value(ItemType::AuthTok) is None,
            final(self).value(ItemType::OldAuthTok) is None,
            forall|t: ItemType|
                t != ItemType::AuthTok && t != ItemType::OldAuthTok
                    ==> #[trigger] final(self).value(t) == old(self).value(t),
    {
        self.authtok = None;
        self.oldauthtok = None;
    }
}

fn opt_str(o: &Option<String>) -> (r: Option<&str>)
    ensures
        str_view(r) == opt_view(*o),
{
    match o {
        Some(s) => Some(s.as_str()),
        None => None,
    }
}

} // verus!
