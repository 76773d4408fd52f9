use vstd::prelude::*;

verus! {

/// A value found under a key of a login record: either text or any other
/// kind of value (a number, a list, an object, null).
pub enum FieldValue {
    Text(String),
    Other,
}

/// The fields of a login record that credential extraction looks at.
pub struct LoginFields {
    pub username: Option<FieldValue>,
    pub email: Option<FieldValue>,
    pub password: Option<FieldValue>,
}

/// The structured payload of an item, reduced to its login record, if any.
pub struct ContentDoc {
    pub login: Option<LoginFields>,
}

pub open spec fn opt_view(o: Option<String>) -> Option<Seq<char>> {
    match o {
        Some(s) => Some(s@),
        None => None,
    }
}

/// The text held by a field, if it is present and holds text.
pub open spec fn field_text(f: Option<FieldValue>) -> Option<Seq<char>> {
    match f {
        Some(FieldValue::Text(s)) => Some(s@),
        _ => None,
    }
}

fn text_of(f: &Option<FieldValue>) -> (r: Option<String>)
    ensures
        opt_view(r) == field_text(*f),
{
    match f {
        Some(FieldValue::Text(s)) => Some(s.clone()),
        _ => None,
    }
}

/// The text held by a field when it is present, holds text, and is not empty.
pub open spec fn nonempty_text(f: Option<FieldValue>) -> Option<Seq<char>> {
    match field_text(f) {
        Some(t) => if t.len() > 0 { Some(t) } else { None },
        None => None,
    }
}

/// The password of a payload: the text under the login record's `password` key.
pub open spec fn doc_password(c: Option<ContentDoc>) -> Option<Seq<char>> {
    match c {
        Some(ContentDoc { login: Some(l) }) => field_text(l.password),
        _ => None,
    }
}

/// The username of a payload: the non-empty `username` text of the login
/// record, falling back to its non-empty `email` text.
pub open spec fn doc_username(c: Option<ContentDoc>) -> Option<Seq<char>> {
    match c {
        Some(ContentDoc { login: Some(l) }) => match nonempty_text(l.username) {
            Some(u) => Some(u),
            None => nonempty_text(l.email),
        },
        _ => None,
    }
}

fn nonempty_text_of(f: &Option<FieldValue>) -> (r: Option<String>)
    ensures
        opt_view(r) == nonempty_text(*f),
{
    match text_of(f) {
        Some(t) => if t.as_str().is_empty() { None } else { Some(t) },
        None => None,
    }
}

fn password_in(c: &Option<ContentDoc>) -> (r: Option<String>)
    ensures
        opt_view(r) == doc_password(*c),
{
    match c {
        Some(ContentDoc { login: Some(l) }) => text_of(&l.password),
        _ => None,
    }
}

fn username_in(c: &Option<ContentDoc>) -> (r: Option<String>)
    ensures
        opt_view(r) == doc_username(*c),
{
    match c {
        Some(ContentDoc { login: Some(l) }) => match nonempty_text_of(&l.username) {
            Some(u) => Some(u),
            None => nonempty_text_of(&l.email),
        },
        _ => None,
    }
}

impl FieldValue {
    pub fn copy(&self) -> (r: FieldValue)
        ensures
            r == *self,
    {
        match self {
            FieldValue::Text(s) => FieldValue::Text(s.clone()),
            FieldValue::Other => FieldValue::Other,
        }
    }
}

fn copy_field(f: &Option<FieldValue>) -> (r: Option<FieldValue>)
    ensures
        r == *f,
{
    match f {
        Some(v) => Some(v.copy()),
        None => None,
    }
}

fn copy_text(o: &Option<String>) -> (r: Option<String>)
    ensures
        r == *o,
{
    match o {
        Some(s) => Some(s.clone()),
        None => None,
    }
}

impl ContentDoc {
    pub fn copy(&self) -> (r: ContentDoc)
        ensures
            r == *self,
    {
        match &self.login {
            Some(l) => ContentDoc {
                login: Some(
                    LoginFields {
                        username: copy_field(&l.username),
                        email: copy_field(&l.email),
                        password: copy_field(&l.password),
                    },
                ),
            },
            None => ContentDoc { login: None },
        }
    }
}

/// Vault list as reported by the credential manager.
pub struct VaultList {
    pub vaults: Vec<Vault>,
}

pub struct Vault {
    pub name: String,
    pub vault_id: String,
    pub share_id: String,
}

/// Item list of one vault as reported by the credential manager.
pub struct ItemList {
    pub items: Vec<Item>,
}

impl ItemList {
    pub fn new() -> (r: ItemList)
        ensures
            r.items@.len() == 0,
    {
        ItemList { items: Vec::new() }
    }

    pub fn copy(&self) -> (r: ItemList)
        ensures
            r.items@ == self.items@,
    {
        let mut items: Vec<Item> = Vec::new();
        let mut i: usize = 0;
        while i < self.items.len()
            invariant
                i <= self.items@.len(),
                items@ == self.items@.subrange(0, i as int),
            decreases self.items@.len() - i,
        {
            items.push(self.items[i].copy());
            i = i + 1;
            assert(items@ =~= self.items@.subrange(0, i as int));
        }
        assert(items@ =~= self.items@);
        ItemList { items }
    }
}

pub struct Item {
    pub content: ItemContent,
    /// Username kept beside the item so that it survives caching, which
    /// drops the secret payload.
    pub cached_username: Option<String>,
}

pub struct ItemContent {
    pub title: String,
    /// Secret payload: present only in memory, right after a live listing.
    pub content: Option<ContentDoc>,
}

impl ItemContent {
    pub fn get_password(&self) -> (r: Option<String>)
        ensures
            opt_view(r) == doc_password(self.content),
    {
        password_in(&self.content)
    }

    pub fn get_username(&self) -> (r: Option<String>)
        ensures
            opt_view(r) == doc_username(self.content),
    {
        username_in(&self.content)
    }
}

/// Username of an item: the cached one when present, else the one in its payload.
pub open spec fn item_username(i: Item) -> Option<Seq<char>> {
    match i.cached_username {
        Some(u) => Some(u@),
        None => doc_username(i.content.content),
    }
}

impl Item {
    pub fn copy(&self) -> (r: Item)
        ensures
            r == *self,
    {
        let content = match &self.content.content {
            Some(d) => Some(d.copy()),
            None => None,
        };
        Item {
            content: ItemContent { title: self.content.title.clone(), content },
            cached_username: copy_text(&self.cached_username),
        }
    }

    pub fn get_username(&self) -> (r: Option<String>)
        ensures
            opt_view(r) == item_username(*self),
    {
        match &self.cached_username {
            Some(u) => Some(u.clone()),
            None => self.content.get_username(),
        }
    }
}

/// One search hit.
pub struct Match {
    pub title: String,
    pub vault_name: String,
    pub username: Option<String>,
    pub password: Option<String>,
}

/// Answer of the credential manager when one item is viewed.
pub struct ItemView {
    pub item: ItemViewItem,
}

pub struct ItemViewItem {
    pub content: ItemViewContent,
}

pub struct ItemViewContent {
    pub content: Option<ContentDoc>,
}

impl ItemViewContent {
    pub fn get_password(&self) -> (r: Option<String>)
        ensures
            opt_view(r) == doc_password(self.content),
    {
        password_in(&self.content)
    }

    pub fn get_username(&self) -> (r: Option<String>)
        ensures
            opt_view(r) == doc_username(self.content),
    {
        username_in(&self.content)
    }
}

} // verus!
