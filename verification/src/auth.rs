//! Who may do what with which session.
use crate::ids::{is_random_uuid, new_uuid};
use crate::numbers::{
    hex_bytes, hex_of, is_lower_hex, law_hex_digits, law_hex_is_injective,
    law_hex_is_two_digits_per_byte,
};
use crate::string_map::StringMap;
use vstd::prelude::*;
use vstd::utf8::encode_utf8;

verus! {

/// How many random bytes a token is made of.
pub const TOKEN_BYTES: usize = 32;

/// The name of someone who uses sessions.
#[derive(Debug, Clone, PartialEq, Eq, Hash)]
pub struct PrincipalId(String);

impl View for PrincipalId {
    type V = Seq<char>;

    closed spec fn view(&self) -> Seq<char> {
        self.0@
    }
}

impl PrincipalId {
    pub fn new(value: &str) -> (id: Self)
        ensures
            id@ == value@,
    {
        PrincipalId(value.to_owned())
    }

    pub fn as_str(&self) -> (s: &str)
        ensures
            s@ == self@,
    {
        &self.0
    }

    /// Another value for the same name.
    pub fn copy(&self) -> (id: Self)
        ensures
            id@ == self@,
            id == *self,
    {
        PrincipalId(self.0.clone())
    }
}

/// The name of a session.
#[derive(Debug, Clone, PartialEq, Eq, Hash)]
pub struct SessionId(String);

impl View for SessionId {
    type V = Seq<char>;

    closed spec fn view(&self) -> Seq<char> {
        self.0@
    }
}

impl SessionId {
    pub fn new(value: &str) -> (id: Self)
        ensures
            id@ == value@,
    {
        SessionId(value.to_owned())
    }

    pub fn as_str(&self) -> (s: &str)
        ensures
            s@ == self@,
    {
        &self.0
    }

    /// Another value for the same name.
    pub fn copy(&self) -> (id: Self)
        ensures
            id@ == self@,
            id == *self,
    {
        SessionId(self.0.clone())
    }
}

/// What a principal is to a session.
#[derive(Debug, Clone, Copy, PartialEq, Eq, Hash, Structural)]
pub enum Role {
    Owner,
    Viewer,
    Controller,
    Admin,
}

/// What can be done with a session.
#[derive(Debug, Clone, Copy, PartialEq, Eq, Hash, Structural)]
pub enum Permission {
    ViewStream,
    ViewInputLogs,
    SendKey,
    ReadMemory,
    AdminLifecycle,
}

/// Whether a role holds a permission: a viewer only watches, a controller and an owner do all but
/// manage the lifecycle, an admin does all.
pub open spec fn role_allows(role: Role, permission: Permission) -> bool {
    match permission {
        Permission::ViewStream | Permission::ViewInputLogs => true,
        Permission::SendKey | Permission::ReadMemory => role != Role::Viewer,
        Permission::AdminLifecycle => role == Role::Admin,
    }
}

impl Role {
    /// Whether the role holds a permission.
    pub fn allows(self, permission: Permission) -> (allowed: bool)
        ensures
            allowed == role_allows(self, permission),
    {
        match self {
            Role::Admin => true,
            Role::Owner => !matches!(permission, Permission::AdminLifecycle),
            Role::Controller => matches!(
                permission,
                Permission::ViewStream
                    | Permission::ViewInputLogs
                    | Permission::SendKey
                    | Permission::ReadMemory
            ),
            Role::Viewer => matches!(
                permission,
                Permission::ViewStream | Permission::ViewInputLogs
            ),
        }
    }
}

/// What one role may do, the roles above it may do too: viewer, controller, owner, admin.
pub proof fn law_roles_are_nested(permission: Permission)
    ensures
        role_allows(Role::Viewer, permission) ==> role_allows(Role::Controller, permission),
        role_allows(Role::Controller, permission) ==> role_allows(Role::Owner, permission),
        role_allows(Role::Owner, permission) ==> role_allows(Role::Admin, permission),
{
}

/// A role of a principal in a session.
#[derive(Debug, Clone, PartialEq, Eq)]
pub struct Grant {
    pub id: String,
    pub principal_id: PrincipalId,
    pub session_id: SessionId,
    pub role: Role,
    pub revoked: bool,
}

impl Grant {
    /// Another value for the same grant.
    pub fn copy(&self) -> (grant: Grant)
        ensures
            grant == *self,
    {
        Grant {
            id: self.id.clone(),
            principal_id: self.principal_id.copy(),
            session_id: self.session_id.copy(),
            role: self.role,
            revoked: self.revoked,
        }
    }
}

/// A secret by which a principal is known.
#[derive(Debug, Clone, PartialEq, Eq)]
pub struct PrincipalToken {
    pub token: String,
    pub principal_id: PrincipalId,
}

/// Why access is refused.
#[derive(Debug, Clone, Copy, PartialEq, Eq, Structural)]
pub enum AuthError {
    /// Nobody is known by the token.
    InvalidToken,
    /// The principal has no role in the session.
    MissingGrant,
    /// The role of the principal does not hold the permission.
    Forbidden,
}

impl AuthError {
    /// The error in words.
    pub open spec fn words(self) -> Seq<char> {
        match self {
            AuthError::InvalidToken => "principal token is invalid"@,
            AuthError::MissingGrant => "principal has no active grant for session"@,
            AuthError::Forbidden => "principal is not permitted to access this session resource"@,
        }
    }

    /// The error in words.
    pub fn message(self) -> (text: String)
        ensures
            text@ == self.words(),
    {
        match self {
            AuthError::InvalidToken => "principal token is invalid".to_owned(),
            AuthError::MissingGrant => "principal has no active grant for session".to_owned(),
            AuthError::Forbidden => {
                "principal is not permitted to access this session resource".to_owned()
            },
        }
    }
}

/// The SHA-256 digest that the crate `sha2` computes.
pub uninterp spec fn sha256_digest(data: Seq<u8>) -> Seq<u8>;

/// Feeds all of `data` to a new `sha2::Sha256` and finalizes it. The digest has 32 bytes and depends
/// on the data alone.
#[verifier::external_body]
fn sha256(data: &[u8]) -> (digest: Vec<u8>)
    ensures
        digest@ == sha256_digest(data@),
        digest@.len() == 32,
{
    let mut hasher = <sha2::Sha256 as sha2::Digest>::new();
    sha2::Digest::update(&mut hasher, data);
    sha2::Digest::finalize(hasher).to_vec()
}

/// Fills `n` bytes with `fill_bytes` of `rand::rng()`. Nothing is known of the bytes.
#[verifier::external_body]
fn random_bytes(n: usize) -> (bytes: Vec<u8>)
    ensures
        bytes@.len() == n,
{
    let mut bytes = vec![0_u8; n];
    rand::RngCore::fill_bytes(&mut rand::rng(), &mut bytes);
    bytes
}

/// Under what a token is kept: its digest in hexadecimal.
pub open spec fn token_hash(token: Seq<char>) -> Seq<char> {
    hex_bytes(sha256_digest(encode_utf8(token)))
}

/// Under what a token is kept.
pub fn hash_token(token: &str) -> (hash: String)
    ensures
        hash@ == token_hash(token@),
        hash@.len() == 64,
        forall|i: int| 0 <= i < 64 ==> is_lower_hex(#[trigger] hash@[i]),
{
    let digest = sha256(token.as_bytes());
    proof {
        law_hex_is_two_digits_per_byte(digest@);
    }
    hex_of(&digest)
}

/// Whether a token stands for random bytes, in hexadecimal.
pub closed spec fn is_drawn(token: Seq<char>) -> bool {
    exists|bytes: Vec<u8>|
        #[trigger] call_ensures(random_bytes, (TOKEN_BYTES,), bytes) && token == hex_bytes(bytes@)
}

/// A new token: 32 random bytes in hexadecimal.
pub fn generate_token() -> (token: String)
    ensures
        is_drawn(token@),
        token@.len() == 64,
        forall|i: int| 0 <= i < 64 ==> is_lower_hex(#[trigger] token@[i]),
{
    let bytes = random_bytes(TOKEN_BYTES);
    assert(call_ensures(random_bytes, (TOKEN_BYTES,), bytes));
    proof {
        law_hex_is_two_digits_per_byte(bytes@);
    }
    hex_of(&bytes)
}

/// What a grant, if there is one, makes of a wish.
pub open spec fn decision(grant: Option<Grant>, permission: Permission) -> Result<(), AuthError> {
    match grant {
        None => Err(AuthError::MissingGrant),
        Some(g) => if g.revoked {
            Err(AuthError::MissingGrant)
        } else if role_allows(g.role, permission) {
            Ok(())
        } else {
            Err(AuthError::Forbidden)
        },
    }
}

/// Who is known by which token, and which role each has in which session.
#[derive(Debug)]
pub struct AclService {
    token_hash_to_principal: StringMap<PrincipalId>,
    grants: StringMap<StringMap<Grant>>,
}

impl AclService {
    /// A grant stands under the names that it holds.
    pub closed spec fn wf(&self) -> bool {
        &&& self.token_hash_to_principal.wf()
        &&& self.grants.wf()
        &&& forall|p: Seq<char>| #[trigger]
            self.grants@.dom().contains(p) ==> self.grants@[p].wf()
        &&& forall|p: Seq<char>, s: Seq<char>| #[trigger]
            self.grant_of(p, s) matches Some(g) ==> g.principal_id@ == p && g.session_id@ == s
    }

    /// The principals by the hashes of their tokens.
    pub closed spec fn tokens(&self) -> Map<Seq<char>, PrincipalId> {
        self.token_hash_to_principal@
    }

    /// The grant of a principal for a session.
    pub closed spec fn grant_of(&self, principal: Seq<char>, session: Seq<char>) -> Option<Grant> {
        if self.grants@.dom().contains(principal) && self.grants@[principal]@.dom().contains(
            session,
        ) {
            Some(self.grants@[principal]@[session])
        } else {
            None
        }
    }

    /// Whether all grants but one are as they were.
    pub open spec fn grants_but(
        &self,
        before: &AclService,
        principal: Seq<char>,
        session: Seq<char>,
    ) -> bool {
        forall|p: Seq<char>, s: Seq<char>|
            !(p == principal && s == session) ==> #[trigger] self.grant_of(p, s) == before.grant_of(
                p,
                s,
            )
    }

    /// Whether all grants are as they were.
    pub open spec fn same_grants(&self, before: &AclService) -> bool {
        forall|p: Seq<char>, s: Seq<char>| #[trigger]
            self.grant_of(p, s) == before.grant_of(p, s)
    }

    /// Whether `self` is `before` once a principal was made known by the hash of a token.
    pub open spec fn registered(
        &self,
        before: &AclService,
        principal: PrincipalId,
        hash: Seq<char>,
    ) -> bool {
        &&& self.same_grants(before)
        &&& self.tokens() == before.tokens().insert(hash, principal)
    }

    /// Whether `self` is `before` once a grant was given.
    pub open spec fn granted(&self, before: &AclService, grant: Grant) -> bool {
        &&& self.tokens() == before.tokens()
        &&& self.grants_but(before, grant.principal_id@, grant.session_id@)
        &&& self.grant_of(grant.principal_id@, grant.session_id@) == Some(grant)
    }

    /// Whether `self` is `before` once the grant of a principal for a session, if there was one, was
    /// revoked.
    pub open spec fn revoked(
        &self,
        before: &AclService,
        principal: Seq<char>,
        session: Seq<char>,
    ) -> bool {
        &&& self.tokens() == before.tokens()
        &&& self.grants_but(before, principal, session)
        &&& self.grant_of(principal, session) == match before.grant_of(principal, session) {
            Some(g) => Some(Grant { revoked: true, ..g }),
            None => None,
        }
    }

    /// Nobody is known.
    pub fn new() -> (acl: Self)
        ensures
            acl.wf(),
            acl.tokens() == Map::<Seq<char>, PrincipalId>::empty(),
            forall|p: Seq<char>, s: Seq<char>| #[trigger] acl.grant_of(p, s) is None,
    {
        AclService { token_hash_to_principal: StringMap::new(), grants: StringMap::new() }
    }

    /// Makes a new token for a principal.
    pub fn issue_principal_token(&mut self, principal_id: PrincipalId) -> (res: PrincipalToken)
        requires
            old(self).wf(),
        ensures
            final(self).wf(),
            final(self).registered(old(self), principal_id, token_hash(res.token@)),
            res.principal_id == principal_id,
            is_drawn(res.token@),
            res.token@.len() == 64,
            forall|i: int| 0 <= i < 64 ==> is_lower_hex(#[trigger] res.token@[i]),
    {
        let token = generate_token();
        self.register_principal_token(principal_id.copy(), &token);
        PrincipalToken { token, principal_id }
    }

    /// Makes a principal known by a token.
    pub fn register_principal_token(&mut self, principal_id: PrincipalId, token: &str)
        requires
            old(self).wf(),
        ensures
            final(self).wf(),
            final(self).registered(old(self), principal_id, token_hash(token@)),
    {
        self.register_token_hash(principal_id, &hash_token(token));
    }

    /// Makes a principal known by the hash of a token.
    pub fn register_token_hash(&mut self, principal_id: PrincipalId, hash: &str)
        requires
            old(self).wf(),
        ensures
            final(self).wf(),
            final(self).registered(old(self), principal_id, hash@),
    {
        let ghost before = *self;
        let _ = self.token_hash_to_principal.insert(hash, principal_id);
        proof {
            assert forall|p: Seq<char>, s: Seq<char>| #[trigger]
                self.grant_of(p, s) == before.grant_of(p, s) by {}
        }
    }

    /// Gives a principal a role in a session, in place of the one before.
    pub fn grant(&mut self, principal_id: PrincipalId, session_id: SessionId, role: Role) -> (grant:
        Grant)
        requires
            old(self).wf(),
        ensures
            final(self).wf(),
            final(self).granted(old(self), grant),
            grant.principal_id == principal_id,
            grant.session_id == session_id,
            grant.role == role,
            !grant.revoked,
            is_random_uuid(grant.id@),
    {
        let grant = Grant { id: new_uuid(), principal_id, session_id, role, revoked: false };
        self.put_grant(grant.copy());
        grant
    }

    fn put_grant(&mut self, grant: Grant)
        requires
            old(self).wf(),
        ensures
            final(self).wf(),
            final(self).granted(old(self), grant),
    {
        let ghost before = *self;
        let principal = grant.principal_id.copy();
        let session = grant.session_id.copy();
        let mut sessions = match self.grants.remove(principal.as_str()) {
            Some(sessions) => sessions,
            None => StringMap::new(),
        };
        let ghost others = sessions@;
        let _ = sessions.insert(session.as_str(), grant);
        let _ = self.grants.insert(principal.as_str(), sessions);
        proof {
            assert forall|p: Seq<char>, s: Seq<char>|
                !(p == principal@ && s == session@) implies #[trigger] self.grant_of(p, s)
                == before.grant_of(p, s) by {}
            assert forall|p: Seq<char>, s: Seq<char>| (#[trigger] self.grant_of(
                p,
                s,
            )) is Some implies self.grant_of(p, s)->0.principal_id@ == p && self.grant_of(
                p,
                s,
            )->0.session_id@ == s by {
                if !(p == principal@ && s == session@) {
                    assert(self.grant_of(p, s) == before.grant_of(p, s));
                }
            }
        }
    }

    fn find_grant(&self, principal_id: &PrincipalId, session_id: &SessionId) -> (grant: Option<
        &Grant,
    >)
        requires
            self.wf(),
        ensures
            match grant {
                Some(g) => self.grant_of(principal_id@, session_id@) == Some(*g),
                None => self.grant_of(principal_id@, session_id@) is None,
            },
    {
        match self.grants.get(principal_id.as_str()) {
            Some(sessions) => sessions.get(session_id.as_str()),
            None => None,
        }
    }

    /// Takes back the role of a principal in a session. The grant that was revoked is handed back.
    pub fn revoke(&mut self, principal_id: &PrincipalId, session_id: &SessionId) -> (revoked: Option<
        Grant,
    >)
        requires
            old(self).wf(),
        ensures
            final(self).wf(),
            final(self).revoked(old(self), principal_id@, session_id@),
            revoked == final(self).grant_of(principal_id@, session_id@),
    {
        let found = match self.find_grant(principal_id, session_id) {
            Some(grant) => Some(grant.copy()),
            None => None,
        };
        match found {
            Some(grant) => {
                let grant = Grant { revoked: true, ..grant };
                self.put_grant(grant.copy());
                Some(grant)
            },
            None => None,
        }
    }

    /// The principal that is known by a token.
    pub fn resolve_token(&self, token: &str) -> (res: Result<PrincipalId, AuthError>)
        requires
            self.wf(),
        ensures
            res == if self.tokens().dom().contains(token_hash(token@)) {
                Ok::<PrincipalId, AuthError>(self.tokens()[token_hash(token@)])
            } else {
                Err(AuthError::InvalidToken)
            },
    {
        self.resolve_token_hash(&hash_token(token))
    }

    /// The principal that is known by the hash of a token.
    pub fn resolve_token_hash(&self, hash: &str) -> (res: Result<PrincipalId, AuthError>)
        requires
            self.wf(),
        ensures
            res == if self.tokens().dom().contains(hash@) {
                Ok::<PrincipalId, AuthError>(self.tokens()[hash@])
            } else {
                Err(AuthError::InvalidToken)
            },
    {
        match self.token_hash_to_principal.get(hash) {
            Some(principal) => Ok(principal.copy()),
            None => Err(AuthError::InvalidToken),
        }
    }

    /// What is decided on a wish of whoever is known by the hash of a token.
    pub open spec fn decides(
        &self,
        hash: Seq<char>,
        session: Seq<char>,
        permission: Permission,
    ) -> Result<PrincipalId, AuthError> {
        if self.tokens().dom().contains(hash) {
            let principal = self.tokens()[hash];
            match decision(self.grant_of(principal@, session), permission) {
                Ok(_) => Ok(principal),
                Err(e) => Err(e),
            }
        } else {
            Err(AuthError::InvalidToken)
        }
    }

    /// Whether whoever is known by a token may do something with a session, and who that is.
    pub fn check_token(&self, token: &str, session_id: &SessionId, permission: Permission) -> (res:
        Result<PrincipalId, AuthError>)
        requires
            self.wf(),
        ensures
            res == self.decides(token_hash(token@), session_id@, permission),
    {
        self.check_token_hash(&hash_token(token), session_id, permission)
    }

    /// Whether whoever is known by the hash of a token may do something with a session, and who that
    /// is.
    pub fn check_token_hash(&self, hash: &str, session_id: &SessionId, permission: Permission) -> (
    res: Result<PrincipalId, AuthError>)
        requires
            self.wf(),
        ensures
            res == self.decides(hash@, session_id@, permission),
    {
        match self.resolve_token_hash(hash) {
            Ok(principal) => match self.check_principal(&principal, session_id, permission) {
                Ok(_) => Ok(principal),
                Err(e) => Err(e),
            },
            Err(e) => Err(e),
        }
    }

    /// Whether a principal may do something with a session.
    pub fn check_principal(
        &self,
        principal_id: &PrincipalId,
        session_id: &SessionId,
        permission: Permission,
    ) -> (res: Result<(), AuthError>)
        requires
            self.wf(),
        ensures
            res == decision(self.grant_of(principal_id@, session_id@), permission),
    {
        match self.find_grant(principal_id, session_id) {
            None => Err(AuthError::MissingGrant),
            Some(grant) => {
                if grant.revoked {
                    Err(AuthError::MissingGrant)
                } else if grant.role.allows(permission) {
                    Ok(())
                } else {
                    Err(AuthError::Forbidden)
                }
            },
        }
    }
}

impl Default for AclService {
    fn default() -> (acl: Self)
        ensures
            acl.wf(),
            acl.tokens() == Map::<Seq<char>, PrincipalId>::empty(),
            forall|p: Seq<char>, s: Seq<char>| #[trigger] acl.grant_of(p, s) is None,
    {
        AclService::new()
    }
}

/// Nobody gets in without a known token, and nobody without a grant for that very session.
pub proof fn law_deny_by_default(
    acl: &AclService,
    token: Seq<char>,
    session: Seq<char>,
    permission: Permission,
)
    ensures
        acl.decides(token_hash(token), session, permission) matches Ok(principal) ==> {
            &&& acl.tokens().dom().contains(token_hash(token))
            &&& acl.tokens()[token_hash(token)] == principal
            &&& acl.grant_of(principal@, session) matches Some(g) && !g.revoked && role_allows(
                g.role,
                permission,
            )
        },
{
}

/// A revoked grant lets nobody in, whatever the role was.
pub proof fn law_revoked_grant_fails_closed(grant: Grant, permission: Permission)
    requires
        grant.revoked,
    ensures
        decision(Some(grant), permission) == Err::<(), AuthError>(AuthError::MissingGrant),
{
}

/// With an active grant access goes by the role, and a refusal is told apart from a missing grant.
pub proof fn law_active_grant_goes_by_role(
    acl: &AclService,
    token: Seq<char>,
    session: Seq<char>,
    permission: Permission,
)
    requires
        acl.tokens().dom().contains(token_hash(token)),
        acl.grant_of(acl.tokens()[token_hash(token)]@, session) matches Some(g) && !g.revoked,
    ensures
        ({
            let principal = acl.tokens()[token_hash(token)];
            let grant = acl.grant_of(principal@, session)->0;
            acl.decides(token_hash(token), session, permission) == if role_allows(
                grant.role,
                permission,
            ) {
                Ok::<PrincipalId, AuthError>(principal)
            } else {
                Err(AuthError::Forbidden)
            }
        }),
{
}

/// Once a token was registered, whoever shows it is the principal that it was registered for, and
/// nothing changes for tokens with another hash.
pub proof fn law_registered_token_resolves(
    before: &AclService,
    after: &AclService,
    principal: PrincipalId,
    token: Seq<char>,
    other: Seq<char>,
    session: Seq<char>,
    permission: Permission,
)
    requires
        after.tokens() == before.tokens().insert(token_hash(token), principal),
        after.same_grants(before),
        token_hash(other) != token_hash(token),
    ensures
        after.tokens()[token_hash(token)] == principal,
        after.decides(token_hash(token), session, permission) == match decision(
            before.grant_of(principal@, session),
            permission,
        ) {
            Ok(_) => Ok::<PrincipalId, AuthError>(principal),
            Err(e) => Err(e),
        },
        after.decides(token_hash(other), session, permission) == before.decides(
            token_hash(other),
            session,
            permission,
        ),
{
    assert(after.grant_of(principal@, session) == before.grant_of(principal@, session));
    if before.tokens().dom().contains(token_hash(other)) {
        let known = before.tokens()[token_hash(other)];
        assert(after.grant_of(known@, session) == before.grant_of(known@, session));
    }
}

/// A grant opens one session only: what was decided for any other session stays.
pub proof fn law_grants_are_session_scoped(
    before: &AclService,
    after: &AclService,
    principal: Seq<char>,
    session: Seq<char>,
    hash: Seq<char>,
    other: Seq<char>,
    permission: Permission,
)
    requires
        after.tokens() == before.tokens(),
        after.grants_but(before, principal, session),
        other != session,
    ensures
        after.decides(hash, other, permission) == before.decides(hash, other, permission),
{
    if before.tokens().dom().contains(hash) {
        let known = before.tokens()[hash];
        assert(after.grant_of(known@, other) == before.grant_of(known@, other));
    }
}

/// What changes who may do what.
pub ghost enum AclStep {
    /// A principal is made known by the hash of a token.
    Registered { principal: PrincipalId, hash: Seq<char> },
    /// A principal is given a role in a session.
    Granted { grant: Grant },
    /// The role of a principal in a session is taken back.
    Revoked { who: Seq<char>, session: Seq<char> },
}

impl AclStep {
    /// Whether `after` is `before` once this happened.
    pub open spec fn leads(self, before: &AclService, after: &AclService) -> bool {
        match self {
            AclStep::Registered { principal, hash } => after.registered(before, principal, hash),
            AclStep::Granted { grant } => !grant.revoked && after.granted(before, grant),
            AclStep::Revoked { who, session } => after.revoked(before, who, session),
        }
    }
}

/// The principal that was last made known by the hash of a token.
pub open spec fn last_registered(steps: Seq<AclStep>, hash: Seq<char>) -> Option<PrincipalId>
    decreases steps.len(),
{
    if steps.len() == 0 {
        None
    } else {
        match steps.last() {
            AclStep::Registered { principal, hash: h } if h == hash => Some(principal),
            _ => last_registered(steps.drop_last(), hash),
        }
    }
}

/// The role that a principal was last given in a session, unless it was taken back since.
pub open spec fn last_role(steps: Seq<AclStep>, principal: Seq<char>, session: Seq<char>) -> Option<
    Role,
>
    decreases steps.len(),
{
    if steps.len() == 0 {
        None
    } else {
        match steps.last() {
            AclStep::Granted { grant } if grant.principal_id@ == principal && grant.session_id@
                == session => Some(grant.role),
            AclStep::Revoked { who, session: s } if who == principal && s == session => None,
            _ => last_role(steps.drop_last(), principal, session),
        }
    }
}

/// The role that a grant gives, if there is one and it is active.
pub open spec fn active_role(grant: Option<Grant>) -> Option<Role> {
    match grant {
        Some(g) => if g.revoked {
            None
        } else {
            Some(g.role)
        },
        None => None,
    }
}

/// After any number of registrations, grants and revocations: a token that was never registered is
/// invalid; whoever it was last registered for has no access to a session without a grant for that
/// very session that was not revoked since; else the role of the last such grant decides. What was
/// done for other principals and sessions does not matter. Tokens are told apart by their hashes.
pub proof fn law_access_goes_by_history(
    states: Seq<AclService>,
    steps: Seq<AclStep>,
    token: Seq<char>,
    session: Seq<char>,
    permission: Permission,
)
    requires
        states.len() == steps.len() + 1,
        states[0].tokens() == Map::<Seq<char>, PrincipalId>::empty(),
        forall|p: Seq<char>, s: Seq<char>| (#[trigger] states[0].grant_of(p, s)) is None,
        forall|i: int|
            0 <= i < steps.len() ==> (#[trigger] steps[i]).leads(&states[i], &states[i + 1]),
    ensures
        states.last().decides(token_hash(token), session, permission) == match last_registered(
            steps,
            token_hash(token),
        ) {
            None => Err::<PrincipalId, AuthError>(AuthError::InvalidToken),
            Some(principal) => match last_role(steps, principal@, session) {
                None => Err(AuthError::MissingGrant),
                Some(role) => if role_allows(role, permission) {
                    Ok(principal)
                } else {
                    Err(AuthError::Forbidden)
                },
            },
        },
{
    lemma_tokens_go_by_history(states, steps, token_hash(token));
    if let Some(principal) = last_registered(steps, token_hash(token)) {
        lemma_roles_go_by_history(states, steps, principal@, session);
    }
}

proof fn lemma_tokens_go_by_history(
    states: Seq<AclService>,
    steps: Seq<AclStep>,
    hash: Seq<char>,
)
    requires
        states.len() == steps.len() + 1,
        states[0].tokens() == Map::<Seq<char>, PrincipalId>::empty(),
        forall|i: int|
            0 <= i < steps.len() ==> (#[trigger] steps[i]).leads(&states[i], &states[i + 1]),
    ensures
        match last_registered(steps, hash) {
            Some(principal) => states.last().tokens().dom().contains(hash)
                && states.last().tokens()[hash] == principal,
            None => !states.last().tokens().dom().contains(hash),
        },
    decreases steps.len(),
{
    if steps.len() > 0 {
        let n = steps.len() - 1;
        let earlier = states.drop_last();
        let fewer = steps.drop_last();
        assert forall|i: int| 0 <= i < fewer.len() implies (#[trigger] fewer[i]).leads(
            &earlier[i],
            &earlier[i + 1],
        ) by {
            assert(steps[i].leads(&states[i], &states[i + 1]));
        }
        lemma_tokens_go_by_history(earlier, fewer, hash);
        assert(steps[n].leads(&states[n], &states[n + 1]));
    }
}

proof fn lemma_roles_go_by_history(
    states: Seq<AclService>,
    steps: Seq<AclStep>,
    principal: Seq<char>,
    session: Seq<char>,
)
    requires
        states.len() == steps.len() + 1,
        states[0].grant_of(principal, session) is None,
        forall|i: int|
            0 <= i < steps.len() ==> (#[trigger] steps[i]).leads(&states[i], &states[i + 1]),
    ensures
        active_role(states.last().grant_of(principal, session)) == last_role(
            steps,
            principal,
            session,
        ),
    decreases steps.len(),
{
    if steps.len() > 0 {
        let n = steps.len() - 1;
        let earlier = states.drop_last();
        let fewer = steps.drop_last();
        assert forall|i: int| 0 <= i < fewer.len() implies (#[trigger] fewer[i]).leads(
            &earlier[i],
            &earlier[i + 1],
        ) by {
            assert(steps[i].leads(&states[i], &states[i + 1]));
        }
        lemma_roles_go_by_history(earlier, fewer, principal, session);
        assert(steps[n].leads(&states[n], &states[n + 1]));
        let before = states[n].grant_of(principal, session);
        let after = states[n + 1].grant_of(principal, session);
        match steps[n] {
            AclStep::Registered { .. } => {
                assert(after == before);
            },
            AclStep::Granted { grant } => {
                if !(grant.principal_id@ == principal && grant.session_id@ == session) {
                    assert(after == before);
                }
            },
            AclStep::Revoked { who, session: s } => {
                if !(who == principal && s == session) {
                    assert(after == before);
                }
            },
        }
    }
}

/// Which role may do what: everybody may look, all but viewers may send keys and read memory, and
/// only admins may start and stop instances.
pub proof fn law_role_table()
    ensures
        role_allows(Role::Viewer, Permission::ViewStream),
        role_allows(Role::Viewer, Permission::ViewInputLogs),
        !role_allows(Role::Viewer, Permission::SendKey),
        !role_allows(Role::Viewer, Permission::ReadMemory),
        !role_allows(Role::Viewer, Permission::AdminLifecycle),
        role_allows(Role::Controller, Permission::ViewStream),
        role_allows(Role::Controller, Permission::ViewInputLogs),
        role_allows(Role::Controller, Permission::SendKey),
        role_allows(Role::Controller, Permission::ReadMemory),
        !role_allows(Role::Controller, Permission::AdminLifecycle),
        role_allows(Role::Owner, Permission::ViewStream),
        role_allows(Role::Owner, Permission::ViewInputLogs),
        role_allows(Role::Owner, Permission::SendKey),
        role_allows(Role::Owner, Permission::ReadMemory),
        !role_allows(Role::Owner, Permission::AdminLifecycle),
        role_allows(Role::Admin, Permission::ViewStream),
        role_allows(Role::Admin, Permission::ViewInputLogs),
        role_allows(Role::Admin, Permission::SendKey),
        role_allows(Role::Admin, Permission::ReadMemory),
        role_allows(Role::Admin, Permission::AdminLifecycle),
{
}

/// Tokens are kept by all of their digest: those with the same hash have the same digest, and the
/// hash has the two hexadecimal digits of each byte of it.
pub proof fn law_hashes_hold_the_whole_digest(a: Seq<char>, b: Seq<char>, i: int)
    requires
        sha256_digest(encode_utf8(a)).len() == 32,
        0 <= i < 32,
    ensures
        token_hash(a) == token_hash(b) <==> sha256_digest(encode_utf8(a)) == sha256_digest(
            encode_utf8(b),
        ),
        token_hash(a).len() == 64,
        ({
            let byte = sha256_digest(encode_utf8(a))[i] as int;
            let (high, low) = (token_hash(a)[2 * i] as int, token_hash(a)[2 * i + 1] as int);
            &&& high == byte / 16 + 48 || high == byte / 16 + 87 && byte >= 160
            &&& low == byte % 16 + 48 || low == byte % 16 + 87 && byte % 16 >= 10
        }),
{
    let (da, db) = (sha256_digest(encode_utf8(a)), sha256_digest(encode_utf8(b)));
    if token_hash(a) == token_hash(b) {
        law_hex_is_injective(da, db);
    }
    law_hex_digits(da, i);
}

/// A refusal leaves no doubt: access is given if and only if the token is known and its principal
/// holds an active grant for this very session whose role may do it.
pub proof fn law_access_needs_token_grant_and_role(
    acl: &AclService,
    hash: Seq<char>,
    session: Seq<char>,
    permission: Permission,
)
    ensures
        ({
            let res = acl.decides(hash, session, permission);
            let known = acl.tokens().dom().contains(hash);
            let principal = acl.tokens()[hash];
            let grant = acl.grant_of(principal@, session);
            &&& res is Ok <==> known && grant is Some && !grant->0.revoked && role_allows(
                grant->0.role,
                permission,
            )
            &&& res is Ok ==> res->Ok_0 == principal
            &&& !known <==> res == Err::<PrincipalId, AuthError>(AuthError::InvalidToken)
            &&& known && (grant is None || grant->0.revoked) <==> res == Err::<
                PrincipalId,
                AuthError,
            >(AuthError::MissingGrant)
        }),
{
}

/// What each refusal says.
pub proof fn law_refusals_in_words(error: AuthError)
    ensures
        error is InvalidToken ==> error.words() == "principal token is invalid"@,
        error is MissingGrant ==> error.words() == "principal has no active grant for session"@,
        error is Forbidden ==> error.words()
            == "principal is not permitted to access this session resource"@,
{
}

/// A token stands for 32 bytes, two characters each.
pub proof fn law_tokens_are_long_enough(token: Seq<char>)
    requires
        is_drawn(token),
    ensures
        token.len() == 64,
        forall|i: int| 0 <= i < 64 ==> is_lower_hex(#[trigger] token[i]),
{
    let bytes = choose|bytes: Vec<u8>| #[trigger]
        call_ensures(random_bytes, (TOKEN_BYTES,), bytes) && token == hex_bytes(bytes@);
    law_hex_is_two_digits_per_byte(bytes@);
}

} // verus!
