//! The model store: the user's API keys, kept encrypted under a password.
use crate::crypt::{decrypt, decryption, encrypt, sealed_with, PASSWORD_MAX, PLAINTEXT_MAX};
use vstd::prelude::*;

verus! {

/// An API key, by the name of the environment variable it stands for.
#[derive(Clone, Debug)]
pub struct ApiKey {
    pub name: String,
    pub key: String,
}

/// The state of the model store panel.
pub struct IcedContext {
    pub global_index_dir: String,
    pub is_locked: bool,
    /// The password that unlocked the store.
    pub password: Option<Vec<u8>>,
    /// The last password that was tried was wrong.
    pub password_error: bool,
    pub api_keys: Vec<ApiKey>,
    /// What the password field holds.
    pub short_text_editor_content: String,
}

/// What the panel reacts to.
pub enum IcedMessage {
    EnterPassword,
    EditShortTextEdit(String),
    AddApiKey,
    Save,
    SetApiKeyName(usize, String),
    SetApiKeyKey(usize, String),
    DeleteApiKey(usize),
    CopyString(String),
    Focus,
}

/// What the caller does after a message.
pub enum StoreAction {
    Nothing,
    /// Reads the store's file and tries this password on it (see
    /// `IcedContext::load_api_keys` and `IcedContext::unlock`).
    Unlock(Vec<u8>),
    /// Writes the keys to the store's file (see `IcedContext::seal_api_keys`).
    Save,
    /// Puts the text on the clipboard.
    Copy(String),
    /// Moves the keyboard focus to the password field.
    Focus,
}

/// What the store's file gives under a password.
pub enum StoreOpen {
    /// There is no file yet: the store starts with the default keys.
    Fresh(Vec<ApiKey>),
    /// The keys, serialized, as the file holds them.
    Decrypted(Vec<u8>),
    WrongPassword,
}

pub open spec fn api_key_view(k: ApiKey) -> (Seq<char>, Seq<char>) {
    (k.name@, k.key@)
}

/// The keys of a new store.
pub open spec fn spec_default_api_keys() -> Seq<(Seq<char>, Seq<char>)> {
    seq![
        ("OPENAI_API_KEY"@, ""@),
        ("ANTHROPIC_API_KEY"@, ""@),
        ("MOCK_API_KEY"@, "mock-1234"@),
    ]
}

/// The keys of a new store: OpenAI's and Anthropic's, empty, and a mock one.
pub fn default_api_keys() -> (r: Vec<ApiKey>)
    ensures
        r@.len() == 3,
        forall|i: int| 0 <= i < 3 ==> api_key_view(#[trigger] r@[i]) == spec_default_api_keys()[i],
{
    let mut r: Vec<ApiKey> = Vec::new();
    r.push(ApiKey { name: "OPENAI_API_KEY".to_string(), key: String::new() });
    r.push(ApiKey { name: "ANTHROPIC_API_KEY".to_string(), key: String::new() });
    r.push(ApiKey { name: "MOCK_API_KEY".to_string(), key: "mock-1234".to_string() });
    proof {
        reveal_strlit("");
        assert(""@ =~= Seq::<char>::empty());
    }
    r
}

impl IcedContext {
    /// A locked store whose file is in `global_index_dir`.
    pub fn new(global_index_dir: String) -> (r: IcedContext)
        ensures
            r.global_index_dir == global_index_dir,
            r.is_locked,
            r.password is None,
            !r.password_error,
            r.api_keys@.len() == 0,
            r.short_text_editor_content@.len() == 0,
    {
        IcedContext {
            global_index_dir,
            is_locked: true,
            password: None,
            password_error: false,
            api_keys: Vec::new(),
            short_text_editor_content: String::new(),
        }
    }

    /// What the store's file (`stored`, or `None` where there is no file)
    /// gives under `password`.
    pub fn load_api_keys(&self, stored: Option<&[u8]>, password: &[u8]) -> (r: StoreOpen)
        ensures
            stored is None ==> (r matches StoreOpen::Fresh(keys) && keys@.len() == 3 && (forall|i: int|
                0 <= i < 3 ==> api_key_view(#[trigger] keys@[i]) == spec_default_api_keys()[i])),
            stored matches Some(data) ==> match decryption(data@, password@) {
                Some(p) => r matches StoreOpen::Decrypted(v) && v@ == p,
                None => r is WrongPassword,
            },
            // Keys saved under a password come back under it.
            forall|json: Seq<u8>|
                #![trigger sealed_with(stored->0@, json, password@)]
                stored is Some && password@.len() <= PASSWORD_MAX && sealed_with(stored->0@, json, password@)
                    ==> (r matches StoreOpen::Decrypted(v) && v@ == json),
    {
        match stored {
            None => StoreOpen::Fresh(default_api_keys()),
            Some(data) => match decrypt(data, password) {
                Ok(json) => StoreOpen::Decrypted(json),
                Err(_) => StoreOpen::WrongPassword,
            },
        }
    }

    /// Ends an attempt to unlock the store with `password`: `keys` are the
    /// keys that the store's file gave under it, or `None` where the
    /// password is wrong. The password field is cleared either way.
    pub fn unlock(&mut self, password: Vec<u8>, keys: Option<Vec<ApiKey>>)
        ensures
            final(self).short_text_editor_content@.len() == 0,
            final(self).global_index_dir == old(self).global_index_dir,
            match keys {
                Some(k) => {
                    &&& final(self).password == Some(password)
                    &&& final(self).api_keys == k
                    &&& !final(self).is_locked
                    &&& final(self).password_error == old(self).password_error
                },
                None => {
                    &&& final(self).password_error
                    &&& final(self).password == old(self).password
                    &&& final(self).api_keys == old(self).api_keys
                    &&& final(self).is_locked == old(self).is_locked
                },
            },
    {
        match keys {
            Some(k) => {
                self.password = Some(password);
                self.api_keys = k;
                self.is_locked = false;
            },
            None => {
                self.password_error = true;
            },
        }
        self.short_text_editor_content = String::new();
    }

    /// The store's file for the keys, serialized as `json`: sealed under
    /// the password that unlocked the store. `None` while it is locked.
    pub fn seal_api_keys(&self, json: &[u8]) -> (r: Option<Vec<u8>>)
        requires
            json@.len() <= PLAINTEXT_MAX,
            self.password matches Some(p) ==> p@.len() <= PASSWORD_MAX,
        ensures
            match self.password {
                Some(p) => r matches Some(d) && sealed_with(d@, json@, p@),
                None => r is None,
            },
    {
        match &self.password {
            Some(p) => Some(encrypt(json, p.as_slice())),
            None => None,
        }
    }
}

/// Reacts to a message of the panel, and says what the caller does next.
pub fn update(context: &mut IcedContext, message: IcedMessage) -> (r: StoreAction)
    requires
        message matches IcedMessage::SetApiKeyName(i, _) ==> i < old(context).api_keys@.len(),
        message matches IcedMessage::SetApiKeyKey(i, _) ==> i < old(context).api_keys@.len(),
        message matches IcedMessage::DeleteApiKey(i) ==> i < old(context).api_keys@.len(),
    ensures
        final(context).global_index_dir == old(context).global_index_dir,
        final(context).password == old(context).password,
        final(context).is_locked == old(context).is_locked,
        final(context).password_error == old(context).password_error,
        match message {
            IcedMessage::EnterPassword => (r matches StoreAction::Unlock(p) && p@
                == vstd::utf8::encode_utf8(old(context).short_text_editor_content@))
                && *final(context) == *old(context),
            IcedMessage::EditShortTextEdit(s) => r is Nothing && final(context).short_text_editor_content
                == s && final(context).api_keys == old(context).api_keys,
            IcedMessage::AddApiKey => r is Nothing && final(context).api_keys@.len() == old(
                context,
            ).api_keys@.len() + 1 && final(context).api_keys@.drop_last() == old(context).api_keys@
                && api_key_view(final(context).api_keys@.last()) == (Seq::<char>::empty(), Seq::<
                char,
            >::empty()),
            IcedMessage::Save => r is Save && *final(context) == *old(context),
            IcedMessage::SetApiKeyName(i, name) => r is Nothing && final(context).api_keys@ == old(
                context,
            ).api_keys@.update(i as int, ApiKey { name, key: old(context).api_keys@[i as int].key }),
            IcedMessage::SetApiKeyKey(i, key) => r is Nothing && final(context).api_keys@ == old(
                context,
            ).api_keys@.update(i as int, ApiKey { name: old(context).api_keys@[i as int].name, key }),
            IcedMessage::DeleteApiKey(i) => r is Nothing && final(context).api_keys@ == old(
                context,
            ).api_keys@.remove(i as int),
            IcedMessage::CopyString(s) => r == StoreAction::Copy(s) && *final(context) == *old(context),
            IcedMessage::Focus => r is Focus && *final(context) == *old(context),
        },
{
    match message {
        IcedMessage::EnterPassword => {
            let password = vstd::slice::slice_to_vec(context.short_text_editor_content.as_str().as_bytes());
            StoreAction::Unlock(password)
        },
        IcedMessage::EditShortTextEdit(s) => {
            context.short_text_editor_content = s;
            StoreAction::Nothing
        },
        IcedMessage::AddApiKey => {
            context.api_keys.push(ApiKey { name: String::new(), key: String::new() });
            StoreAction::Nothing
        },
        IcedMessage::Save => StoreAction::Save,
        IcedMessage::SetApiKeyName(i, name) => {
            let key = context.api_keys[i].key.clone();
            context.api_keys.set(i, ApiKey { name, key });
            StoreAction::Nothing
        },
        IcedMessage::SetApiKeyKey(i, key) => {
            let name = context.api_keys[i].name.clone();
            context.api_keys.set(i, ApiKey { name, key });
            StoreAction::Nothing
        },
        IcedMessage::DeleteApiKey(i) => {
            context.api_keys.remove(i);
            StoreAction::Nothing
        },
        IcedMessage::CopyString(s) => StoreAction::Copy(s),
        IcedMessage::Focus => StoreAction::Focus,
    }
}

} // verus!
