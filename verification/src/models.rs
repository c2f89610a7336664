use vstd::prelude::*;

verus! {

/// A message in a folder snapshot. Timestamps are unix seconds; the remote
/// server's calendar representation is converted at the application edge.
pub struct Email {
    pub id: String,
    pub from: String,
    pub to: Vec<String>,
    pub subject: String,
    pub preview: String,
    pub body: Option<String>,
    pub date: i64,
    pub unread: bool,
    pub starred: bool,
    pub folder: String,
    pub has_attachments: bool,
}

/// Mathematical image of an [`Email`]: every text field as a character
/// sequence, so contracts can speak of contents rather than heap values.
#[verifier::ext_equal]
pub ghost struct EmailV {
    pub id: Seq<char>,
    pub from: Seq<char>,
    pub to: Seq<Seq<char>>,
    pub subject: Seq<char>,
    pub preview: Seq<char>,
    pub body: Option<Seq<char>>,
    pub date: i64,
    pub unread: bool,
    pub starred: bool,
    pub folder: Seq<char>,
    pub has_attachments: bool,
}

impl View for Email {
    type V = EmailV;

    open spec fn view(&self) -> EmailV {
        EmailV {
            id: self.id@,
            from: self.from@,
            to: self.to.deep_view(),
            subject: self.subject@,
            preview: self.preview@,
            body: match self.body {
                Some(b) => Some(b@),
                None => None,
            },
            date: self.date,
            unread: self.unread,
            starred: self.starred,
            folder: self.folder@,
            has_attachments: self.has_attachments,
        }
    }
}

impl Email {
    /// A field-for-field copy; the view is preserved exactly.
    pub fn duplicate(&self) -> (r: Email)
        ensures
            r@ == self@,
    {
        Email {
            id: self.id.clone(),
            from: self.from.clone(),
            to: clone_strings(&self.to),
            subject: self.subject.clone(),
            preview: self.preview.clone(),
            body: match &self.body {
                Some(b) => Some(b.clone()),
                None => None,
            },
            date: self.date,
            unread: self.unread,
            starred: self.starred,
            folder: self.folder.clone(),
            has_attachments: self.has_attachments,
        }
    }
}

/// Copies a list of strings, preserving its view exactly.
pub fn clone_strings(v: &Vec<String>) -> (r: Vec<String>)
    ensures
        r@ == v@,
        r.deep_view() == v.deep_view(),
{
    let mut r: Vec<String> = Vec::new();
    let mut i: usize = 0;
    while i < v.len()
        invariant
            i <= v.len(),
            r@ =~= v@.take(i as int),
        decreases v.len() - i,
    {
        r.push(v[i].clone());
        assert(r@ =~= v@.take(i as int + 1));
        i = i + 1;
    }
    assert(v@.take(v.len() as int) =~= v@);
    r
}

/// A login attempt as received from the client.
pub struct LoginRequest {
    pub email: String,
    pub password: String,
}

/// A successful login: the issued bearer token and the authenticated user.
pub struct LoginResponse {
    pub token: String,
    pub user: User,
}

/// The authenticated identity; `id` is derived deterministically from the
/// mailbox address and stable across logins.
pub struct User {
    pub id: String,
    pub email: String,
    pub name: String,
}

/// An outbound send request.
pub struct SendEmailRequest {
    pub to: Vec<String>,
    pub subject: String,
    pub body: String,
    pub cc: Option<Vec<String>>,
    pub bcc: Option<Vec<String>>,
}

/// A request to set a message's read flag.
pub struct MarkReadRequest {
    pub read: bool,
}

/// A request to set a message's starred flag.
pub struct StarEmailRequest {
    pub starred: bool,
}

/// A search request.
pub struct SearchQuery {
    pub q: String,
}

/// Quota facts for one mailbox, as reported by the account-management API.
pub struct MailboxInfo {
    pub username: String,
    pub quota: u64,
    pub quota_used: u64,
}

/// The uniform response envelope: exactly one of `data` and `error` is set.
pub struct ApiResponse<T> {
    pub success: bool,
    pub data: Option<T>,
    pub error: Option<String>,
}

impl<T> ApiResponse<T> {
    /// Wraps a value in a successful envelope.
    pub fn success(data: T) -> (r: ApiResponse<T>)
        ensures
            r.success == true,
            r.data == Some(data),
            r.error is None,
    {
        ApiResponse { success: true, data: Some(data), error: None }
    }

    /// Wraps an error message in a failed envelope.
    pub fn error(message: String) -> (r: ApiResponse<T>)
        ensures
            r.success == false,
            r.data is None,
            r.error == Some(message),
    {
        ApiResponse { success: false, data: None, error: Some(message) }
    }
}

} // verus!
