//! The authentication facade: it owns the secret key and the allow-list,
//! issues fresh magic-link tokens, promotes them on click-through, and checks
//! promoted tokens presented as session cookies.

use vstd::prelude::*;
use vstd::string::{StringExecFns, StrSliceExecFns};
use vstd::utf8::encode_utf8;
use crate::email::{split_trim, validates, EmailValidator};
use crate::magic::{sealed_of, MagicIdentity, MAGIC_TTL_SECS, SESSION_TTL_SECS};
use crate::codec::TokenSpec;
use crate::text::lower_of;

verus! {

/// The name of the session cookie that carries a promoted token.
pub const COOKIE_NAME: &'static str = "bckt-auth";

/// How an authentication operation failed. `Unauthorized` is user-facing;
/// `InvalidToken` stands for any open, expiry or state failure, never
/// distinguished to the end user; `InternalError` covers everything else.
#[derive(Debug, PartialEq, Eq, Structural, Clone, Copy)]
pub enum AuthError {
    Unauthorized,
    InvalidToken,
    InternalError,
}

impl AuthError {
    /// The HTTP status an edge should answer with.
    pub fn status_code(&self) -> (r: u16)
        ensures
            r == (match *self {
                AuthError::Unauthorized => 401u16,
                AuthError::InvalidToken => 401u16,
                AuthError::InternalError => 500u16,
            }),
    {
        match self {
            AuthError::Unauthorized => 401,
            AuthError::InvalidToken => 401,
            AuthError::InternalError => 500,
        }
    }

    /// A user-facing description of the failure.
    pub fn message(&self) -> (r: String)
        ensures
            *self == AuthError::Unauthorized ==> r@
                == "Email is not authorized to login. Please enter another email or ask an invite to @glendc."@,
            *self == AuthError::InvalidToken ==> r@ == "The login link or session is not valid."@,
            *self == AuthError::InternalError ==> r@ == "Error sending magic link."@,
    {
        match self {
            AuthError::Unauthorized => String::from_str(
                "Email is not authorized to login. Please enter another email or ask an invite to @glendc.",
            ),
            AuthError::InvalidToken => String::from_str("The login link or session is not valid."),
            AuthError::InternalError => String::from_str("Error sending magic link."),
        }
    }
}

/// The token as it stands after promotion at the instant `now`: verified,
/// with its expiry extended to seven days from `now`.
pub open spec fn promoted(t: TokenSpec, now: u64) -> TokenSpec {
    TokenSpec { verified: true, expires_at: (now + SESSION_TTL_SECS) as u64, ..t }
}

/// Everything an outbound delivery needs: the recipient, the transport
/// payload with the sealed token embedded, and the sealed token itself.
pub struct DeliveryRequest {
    /// The destination address, exactly as the caller gave it.
    pub recipient: String,
    /// The transport payload that embeds the sealed token.
    pub payload: String,
    /// The sealed, URL-safe token the payload embeds.
    pub magic: String,
}

/// A character as it is spliced into a payload string: the quote and the
/// backslash get a backslash prefix, every other character stands as it is.
pub open spec fn esc_char(c: char) -> Seq<char> {
    if c == '"' || c == '\\' {
        seq!['\\', c]
    } else {
        seq![c]
    }
}

/// A string as it is spliced into a payload string: each character escaped.
pub open spec fn esc_chars(s: Seq<char>) -> Seq<char>
    decreases s.len(),
{
    if s.len() == 0 {
        Seq::<char>::empty()
    } else {
        esc_chars(s.drop_last()) + esc_char(s.last())
    }
}

/// Appends `s` to `out` with payload escaping.
fn esc_append(out: &mut String, s: &str)
    ensures
        final(out)@ == old(out)@ + esc_chars(s@),
{
    let n = s.unicode_len();
    let mut i: usize = 0;
    proof {
        assert(s@.take(0) =~= Seq::<char>::empty());
        assert(out@ + esc_chars(s@.take(0)) =~= out@);
    }
    while i < n
        invariant
            i <= n,
            n == s@.len(),
            out@ == old(out)@ + esc_chars(s@.take(i as int)),
        decreases n - i,
    {
        let ghost before = out@;
        let c = s.get_char(i);
        if c == '"' || c == '\\' {
            out.append("\\");
            proof {
                reveal_strlit("\\");
            }
        }
        let piece = s.substring_char(i, i + 1);
        out.append(piece);
        proof {
            assert(piece@ =~= seq![s@[i as int]]);
            assert(s@.take(i + 1).drop_last() =~= s@.take(i as int));
            assert(s@.take(i + 1).last() == s@[i as int]);
            assert(out@ =~= old(out)@ + esc_chars(s@.take(i + 1)));
        }
        i = i + 1;
    }
    proof {
        assert(s@.take(n as int) =~= s@);
    }
}

/// The delivery payload for a recipient and a sealed token: a fixed template
/// with the recipient escaped and the sealed text spliced in.
pub open spec fn delivery_payload(email: Seq<char>, magic: Seq<char>) -> Seq<char> {
    "{\"personalizations\":[{\"to\":[{\"email\":\""@ + esc_chars(email)
        + "\"}],\"dynamic_template_data\":{\"magic\":\""@ + magic
        + "\"}}],\"from\":{\"email\":\"hello@bckt.xyz\",\"name\":\"bckt.xyz\"},\"reply_to\":{\"email\":\"hello@bckt.xyz\",\"name\":\"bckt.xyz\"},\"mail_settings\":{\"bypass_list_management\":{\"enable\":false},\"footer\":{\"enable\":false},\"sandbox_mode\":{\"enable\":false}},\"tracking_settings\":{\"click_tracking\":{\"enable\":false,\"enable_text\":false},\"open_tracking\":{\"enable\":false},\"subscription_tracking\":{\"enable\":false}},\"template_id\":\"d-3bf522f04d47411489abe38342be66a4\"}"@
}

/// Builds the delivery payload by splicing the recipient and the sealed
/// token into the fixed template.
fn build_payload(email: &str, magic: &str) -> (r: String)
    ensures
        r@ == delivery_payload(email@, magic@),
{
    let mut out = String::from_str("{\"personalizations\":[{\"to\":[{\"email\":\"");
    esc_append(&mut out, email);
    out.append("\"}],\"dynamic_template_data\":{\"magic\":\"");
    out.append(magic);
    out.append(
        "\"}}],\"from\":{\"email\":\"hello@bckt.xyz\",\"name\":\"bckt.xyz\"},\"reply_to\":{\"email\":\"hello@bckt.xyz\",\"name\":\"bckt.xyz\"},\"mail_settings\":{\"bypass_list_management\":{\"enable\":false},\"footer\":{\"enable\":false},\"sandbox_mode\":{\"enable\":false}},\"tracking_settings\":{\"click_tracking\":{\"enable\":false,\"enable_text\":false},\"open_tracking\":{\"enable\":false},\"subscription_tracking\":{\"enable\":false}},\"template_id\":\"d-3bf522f04d47411489abe38342be66a4\"}",
    );
    out
}

/// True exactly when the delivery transport reported the accepted status.
pub fn delivery_succeeded(status: u16) -> (r: bool)
    ensures
        r == (status == 202),
{
    status == 202
}

/// Validates the address, mints and seals a token, and builds the delivery
/// payload around the sealed text.
pub struct MagicSender {
    sendgrid_api_key: String,
    email_validator: EmailValidator,
}

impl MagicSender {
    /// The configured allow-list entries.
    pub closed spec fn filters(&self) -> Seq<Seq<char>> {
        self.email_validator@
    }

    /// The configured transport credential.
    pub closed spec fn api_key(&self) -> Seq<char> {
        self.sendgrid_api_key@
    }

    /// Builds a sender from the transport credential and the raw allow-list.
    pub fn new(sendgrid_api_key: String, raw_auth_emails: String) -> (r: MagicSender)
        ensures
            r.filters() == split_trim(raw_auth_emails@),
            r.api_key() == sendgrid_api_key@,
    {
        let email_validator = EmailValidator::new(raw_auth_emails.as_str());
        MagicSender { sendgrid_api_key, email_validator }
    }

    /// Validates the address against the allow-list, mints an unverified
    /// token expiring one hour after the instant `now`, seals it under
    /// `key`, and returns what a delivery edge needs. `Unauthorized` exactly
    /// when the allow-list rejects the address; any minting or sealing
    /// failure is `InternalError`.
    pub fn prepare_magic_link_at(&self, email: &str, key: &[u8], now: u64) -> (r: Result<
        DeliveryRequest,
        AuthError,
    >)
        requires
            key@.len() == 32,
        ensures
            (r == Err::<DeliveryRequest, AuthError>(AuthError::Unauthorized)) <==> !validates(
                self.filters(),
                lower_of(email@),
            ),
            r matches Ok(d) ==> ({
                &&& exists|t: TokenSpec|
                    {
                        &&& #[trigger] sealed_of(key@, d.magic@, t)
                        &&& t.email == lower_of(email@)
                        &&& t.expires_at == now + MAGIC_TTL_SECS
                        &&& !t.verified
                    }
                &&& d.recipient@ == email@
                &&& d.payload@ == delivery_payload(email@, d.magic@)
            }),
    {
        if !self.email_validator.validate(email) {
            return Err(AuthError::Unauthorized);
        }
        let ident = match MagicIdentity::new_at(email, now) {
            Ok(m) => m,
            Err(_) => {
                return Err(AuthError::InternalError);
            },
        };
        let magic = match ident.encrypt(key) {
            Ok(c) => c,
            Err(_) => {
                return Err(AuthError::InternalError);
            },
        };
        let payload = build_payload(email, magic.as_str());
        let d = DeliveryRequest { recipient: email.to_owned(), payload, magic };
        proof {
            assert(sealed_of(key@, d.magic@, ident@) && ident@.email == lower_of(email@)
                && ident@.expires_at == now + MAGIC_TTL_SECS && !ident@.verified);
        }
        Ok(d)
    }

    /// Issues as of the wall clock: the minted token expires one hour from
    /// now.
    pub fn prepare_magic_link(&self, email: &str, key: &[u8]) -> (r: Result<
        DeliveryRequest,
        AuthError,
    >)
        requires
            key@.len() == 32,
        ensures
            (r == Err::<DeliveryRequest, AuthError>(AuthError::Unauthorized)) <==> !validates(
                self.filters(),
                lower_of(email@),
            ),
            r matches Ok(d) ==> ({
                &&& exists|t: TokenSpec|
                    {
                        &&& #[trigger] sealed_of(key@, d.magic@, t)
                        &&& t.email == lower_of(email@)
                        &&& !t.verified
                    }
                &&& d.recipient@ == email@
                &&& d.payload@ == delivery_payload(email@, d.magic@)
            }),
    {
        let now = crate::clock::unix_now();
        let r = self.prepare_magic_link_at(email, key, now);
        match &r {
            Ok(d) => {
                proof {
                    let t = choose|t: TokenSpec|
                        {
                            &&& #[trigger] sealed_of(key@, d.magic@, t)
                            &&& t.email == lower_of(email@)
                            &&& t.expires_at == now + MAGIC_TTL_SECS
                            &&& !t.verified
                        };
                    assert(sealed_of(key@, d.magic@, t) && t.email == lower_of(email@)
                        && !t.verified);
                }
            },
            Err(_) => {},
        }
        r
    }
}

/// The authentication facade: the long-lived secret key and the sender.
pub struct Auth {
    secret_key: Vec<u8>,
    magic_sender: MagicSender,
}

impl Auth {
    /// The secret key's bytes.
    pub closed spec fn key(&self) -> Seq<u8> {
        self.secret_key@
    }

    /// The key has the size the authenticated encryption needs.
    pub closed spec fn wf(&self) -> bool {
        self.secret_key@.len() == 32
    }

    /// The configured allow-list entries.
    pub closed spec fn allow_list(&self) -> Seq<Seq<char>> {
        self.magic_sender.filters()
    }

    /// Builds the facade from the raw secret key, the raw allow-list and the
    /// transport credential. Fails exactly when the key is not the 32 bytes
    /// the authenticated encryption needs.
    pub fn new(private_key: String, raw_auth_emails: String, sendgrid_api_key: String) -> (r:
        Result<Auth, AuthError>)
        ensures
            r matches Ok(a) ==> ({
                &&& a.wf()
                &&& a.key() == encode_utf8(private_key@)
                &&& a.allow_list() == split_trim(raw_auth_emails@)
            }),
            r is Err <==> encode_utf8(private_key@).len() != 32,
            r is Err ==> r == Err::<Auth, AuthError>(AuthError::InternalError),
    {
        let secret_key = private_key.as_str().as_bytes_vec();
        if secret_key.len() != 32 {
            return Err(AuthError::InternalError);
        }
        let magic_sender = MagicSender::new(sendgrid_api_key, raw_auth_emails);
        Ok(Auth { secret_key, magic_sender })
    }

    /// Issues a login token for `email` as of the instant `now`: validates
    /// it against the allow-list, mints an unverified token expiring one
    /// hour after `now`, seals it, and returns what the delivery edge needs.
    /// `Unauthorized` exactly when the allow-list rejects the address, so no
    /// delivery is attempted for it.
    pub fn prepare_magic_link_at(&self, email: &str, now: u64) -> (r: Result<
        DeliveryRequest,
        AuthError,
    >)
        requires
            self.wf(),
        ensures
            (r == Err::<DeliveryRequest, AuthError>(AuthError::Unauthorized)) <==> !validates(
                self.allow_list(),
                lower_of(email@),
            ),
            r matches Ok(d) ==> ({
                &&& exists|t: TokenSpec|
                    {
                        &&& #[trigger] sealed_of(self.key(), d.magic@, t)
                        &&& t.email == lower_of(email@)
                        &&& t.expires_at == now + MAGIC_TTL_SECS
                        &&& !t.verified
                    }
                &&& d.recipient@ == email@
                &&& d.payload@ == delivery_payload(email@, d.magic@)
            }),
    {
        let r = self.magic_sender.prepare_magic_link_at(
            email,
            self.secret_key.as_slice(),
            now,
        );
        match &r {
            Ok(d) => {
                proof {
                    let t = choose|t: TokenSpec|
                        {
                            &&& #[trigger] sealed_of(self.secret_key@, d.magic@, t)
                            &&& t.email == lower_of(email@)
                            &&& t.expires_at == now + MAGIC_TTL_SECS
                            &&& !t.verified
                        };
                    assert(sealed_of(self.key(), d.magic@, t) && t.email == lower_of(email@)
                        && t.expires_at == now + MAGIC_TTL_SECS && !t.verified);
                }
            },
            Err(_) => {},
        }
        r
    }

    /// Issues a login token for `email` as of the wall clock: the minted
    /// token expires one hour from now.
    pub fn prepare_magic_link(&self, email: &str) -> (r: Result<DeliveryRequest, AuthError>)
        requires
            self.wf(),
        ensures
            (r == Err::<DeliveryRequest, AuthError>(AuthError::Unauthorized)) <==> !validates(
                self.allow_list(),
                lower_of(email@),
            ),
            r matches Ok(d) ==> ({
                &&& exists|t: TokenSpec|
                    {
                        &&& #[trigger] sealed_of(self.key(), d.magic@, t)
                        &&& t.email == lower_of(email@)
                        &&& !t.verified
                    }
                &&& d.recipient@ == email@
                &&& d.payload@ == delivery_payload(email@, d.magic@)
            }),
    {
        let now = crate::clock::unix_now();
        let r = self.prepare_magic_link_at(email, now);
        match &r {
            Ok(d) => {
                proof {
                    let t = choose|t: TokenSpec|
                        {
                            &&& #[trigger] sealed_of(self.key(), d.magic@, t)
                            &&& t.email == lower_of(email@)
                            &&& t.expires_at == now + MAGIC_TTL_SECS
                            &&& !t.verified
                        };
                    assert(sealed_of(self.key(), d.magic@, t) && t.email == lower_of(email@)
                        && !t.verified);
                }
            },
            Err(_) => {},
        }
        r
    }

    /// Promotes a magic-link token as of the instant `now`: opens it, rejects
    /// it if expired or already verified, marks it verified with a seven-day
    /// expiry, and re-seals it. Returns the new sealed text and its expiry.
    pub fn verify_magic_at(&self, magic: &str, now: u64) -> (r: Option<(String, u64)>)
        requires
            self.wf(),
        ensures
            r matches Some(p) ==> exists|t: TokenSpec|
                {
                    &&& #[trigger] sealed_of(self.key(), magic@, t)
                    &&& !t.verified
                    &&& now < t.expires_at
                    &&& p.1 == now + SESSION_TTL_SECS
                    &&& sealed_of(self.key(), p.0@, promoted(t, now))
                },
            forall|t: TokenSpec|
                #[trigger] sealed_of(self.key(), magic@, t) && (t.expires_at <= now
                    || t.verified) ==> r is None,
    {
        let key = self.secret_key.as_slice();
        let mut ident = match MagicIdentity::decrypt(magic, key) {
            Ok(m) => m,
            Err(_) => {
                return None;
            },
        };
        if ident.expired_at(now) {
            return None;
        }
        if ident.verified() {
            return None;
        }
        if now > u64::MAX - SESSION_TTL_SECS {
            return None;
        }
        let ghost t0 = ident@;
        ident.verify_at(now);
        let resealed = match ident.encrypt(key) {
            Ok(c) => c,
            Err(_) => {
                return None;
            },
        };
        let expires_at = ident.expires_at();
        proof {
            assert(sealed_of(self.key(), magic@, t0) && !t0.verified && now < t0.expires_at
                && sealed_of(self.key(), resealed@, promoted(t0, now)));
        }
        Some((resealed, expires_at))
    }

    /// Promotes a magic-link token as of the wall clock.
    pub fn verify_magic(&self, magic: &str) -> (r: Option<(String, u64)>)
        requires
            self.wf(),
        ensures
            r matches Some(p) ==> exists|t: TokenSpec|
                {
                    &&& #[trigger] sealed_of(self.key(), magic@, t)
                    &&& !t.verified
                    &&& sealed_of(self.key(), p.0@, TokenSpec { verified: true, expires_at: p.1, ..t })
                },
    {
        let now = crate::clock::unix_now();
        let r = self.verify_magic_at(magic, now);
        proof {
            if r is Some {
                let p = r->0;
                let t = choose|t: TokenSpec|
                    {
                        &&& #[trigger] sealed_of(self.key(), magic@, t)
                        &&& !t.verified
                        &&& now < t.expires_at
                        &&& p.1 == now + SESSION_TTL_SECS
                        &&& sealed_of(self.key(), p.0@, promoted(t, now))
                    };
                assert(promoted(t, now) == (TokenSpec { verified: true, expires_at: p.1, ..t }));
            }
        }
        r
    }

    /// Checks a session cookie's token as of the instant `now`: opens it and
    /// returns the authenticated email exactly when the token is intact,
    /// unexpired, and verified.
    pub fn verify_cookie_at(&self, magic: &str, now: u64) -> (r: Option<String>)
        requires
            self.wf(),
        ensures
            r matches Some(email) ==> exists|t: TokenSpec|
                {
                    &&& #[trigger] sealed_of(self.key(), magic@, t)
                    &&& t.verified
                    &&& now < t.expires_at
                    &&& email@ == t.email
                },
            forall|t: TokenSpec|
                #[trigger] sealed_of(self.key(), magic@, t) && (t.expires_at <= now
                    || !t.verified) ==> r is None,
            forall|t: TokenSpec|
                #[trigger] sealed_of(self.key(), magic@, t) && now < t.expires_at && t.verified
                    ==> (r matches Some(email) && email@ == t.email),
    {
        let key = self.secret_key.as_slice();
        let ident = match MagicIdentity::decrypt(magic, key) {
            Ok(m) => m,
            Err(_) => {
                return None;
            },
        };
        if ident.expired_at(now) {
            return None;
        }
        if !ident.verified() {
            return None;
        }
        let email = ident.email().to_owned();
        proof {
            assert(sealed_of(self.key(), magic@, ident@) && ident@.verified && now
                < ident@.expires_at && email@ == ident@.email);
        }
        Some(email)
    }

    /// Checks a session cookie's token as of the wall clock.
    pub fn verify_cookie(&self, magic: &str) -> (r: Option<String>)
        requires
            self.wf(),
        ensures
            r matches Some(email) ==> exists|t: TokenSpec|
                {
                    &&& #[trigger] sealed_of(self.key(), magic@, t)
                    &&& t.verified
                    &&& email@ == t.email
                },
    {
        let now = crate::clock::unix_now();
        self.verify_cookie_at(magic, now)
    }
}

/// What a login edge should set as the session cookie: the promoted token
/// with its own expiry on success, the empty logout form on failure.
pub struct CookieAction {
    /// The cookie's value: a sealed verified token, or empty.
    pub value: String,
    /// The cookie's expiry timestamp: the token's own, or the epoch.
    pub expires_at: u64,
}

/// The cookie a login edge sets for a promotion outcome: the new sealed text
/// with its expiry, or the empty epoch-zero invalidate form.
pub fn login_cookie_action(outcome: Option<(String, u64)>) -> (r: CookieAction)
    ensures
        outcome matches Some(p) ==> r.value@ == p.0@ && r.expires_at == p.1,
        outcome is None ==> r.value@ == Seq::<char>::empty() && r.expires_at == 0,
{
    match outcome {
        Some((value, expires_at)) => CookieAction { value, expires_at },
        None => CookieAction { value: String::new(), expires_at: 0 },
    }
}

/// The cookie a logout edge sets: the empty epoch-zero invalidate form.
pub fn logout_cookie_action() -> (r: CookieAction)
    ensures
        r.value@ == Seq::<char>::empty() && r.expires_at == 0,
{
    CookieAction { value: String::new(), expires_at: 0 }
}

} // verus!
