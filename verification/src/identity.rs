use vstd::prelude::*;

verus! {

/// Who is making a request: a principal, its roles and its tenant.
/// The empty principal is the anonymous caller.
#[derive(Debug, Clone)]
pub struct IdentityContext {
    pub principal: String,
    pub roles: Vec<String>,
    pub tenant: String,
}

impl IdentityContext {
    /// A caller is authenticated when it names a principal.
    pub open spec fn authenticated(&self) -> bool {
        self.principal@.len() > 0
    }

    pub fn new(principal: String, roles: Vec<String>, tenant: String) -> (id: Self)
        ensures
            id.principal == principal,
            id.roles == roles,
            id.tenant == tenant,
    {
        IdentityContext { principal, roles, tenant }
    }

    pub fn anonymous() -> (id: Self)
        ensures
            id.principal@ == Seq::<char>::empty(),
            id.roles@ == Seq::<String>::empty(),
            id.tenant@ == Seq::<char>::empty(),
            !id.authenticated(),
    {
        IdentityContext { principal: String::new(), roles: Vec::new(), tenant: String::new() }
    }

    pub fn is_authenticated(&self) -> (r: bool)
        ensures
            r == self.authenticated(),
    {
        !self.principal.as_str().is_empty()
    }
}

/// Per-request context supplied by the application: the caller identity and
/// an optional time-to-live that flows to the data plane.
#[derive(Debug, Clone)]
pub struct CacheContext {
    identity: IdentityContext,
    ttl: Option<std::time::Duration>,
}

impl CacheContext {
    /// The identity the context carries.
    pub closed spec fn identity_spec(&self) -> IdentityContext {
        self.identity
    }

    /// The context that carries `identity` and no time-to-live.
    pub closed spec fn context_of(identity: IdentityContext) -> Self {
        CacheContext { identity, ttl: None }
    }

    /// The time-to-live the context carries.
    pub closed spec fn ttl_spec(&self) -> Option<std::time::Duration> {
        self.ttl
    }

    pub fn new(identity: IdentityContext) -> (c: Self)
        ensures
            c.identity_spec() == identity,
            c.ttl_spec() is None,
    {
        CacheContext { identity, ttl: None }
    }

    pub fn anonymous() -> (c: Self)
        ensures
            c.identity_spec().principal@ == Seq::<char>::empty(),
            c.identity_spec().roles@ == Seq::<String>::empty(),
            c.identity_spec().tenant@ == Seq::<char>::empty(),
            c.ttl_spec() is None,
    {
        CacheContext { identity: IdentityContext::anonymous(), ttl: None }
    }

    pub fn with_ttl(self, ttl: std::time::Duration) -> (c: Self)
        ensures
            c.identity_spec() == self.identity_spec(),
            c.ttl_spec() == Some(ttl),
    {
        let mut s = self;
        s.ttl = Some(ttl);
        s
    }

    pub fn identity(&self) -> (id: &IdentityContext)
        ensures
            *id == self.identity_spec(),
    {
        &self.identity
    }

    pub fn ttl(&self) -> (t: Option<std::time::Duration>)
        ensures
            t == self.ttl_spec(),
    {
        self.ttl
    }

    pub fn is_authenticated(&self) -> (r: bool)
        ensures
            r == self.identity_spec().authenticated(),
    {
        self.identity.is_authenticated()
    }
}

impl Default for CacheContext {
    fn default() -> (c: Self)
        ensures
            c.identity_spec().principal@ == Seq::<char>::empty(),
            c.identity_spec().roles@ == Seq::<String>::empty(),
            c.identity_spec().tenant@ == Seq::<char>::empty(),
            c.ttl_spec() is None,
    {
        CacheContext::anonymous()
    }
}

impl From<IdentityContext> for CacheContext {
    fn from(identity: IdentityContext) -> (c: Self) {
        CacheContext::new(identity)
    }
}

impl vstd::std_specs::convert::FromSpecImpl<IdentityContext> for CacheContext {
    open spec fn obeys_from_spec() -> bool {
        true
    }

    open spec fn from_spec(v: IdentityContext) -> Self {
        CacheContext::context_of(v)
    }
}

/// Authentication depends on the principal alone: a caller is authenticated
/// exactly when it names a non-empty principal, and two callers with the same
/// principal are alike, whatever their roles and tenants.
pub proof fn lemma_authenticated_by_principal(a: IdentityContext, b: IdentityContext)
    ensures
        a.authenticated() <==> a.principal@.len() > 0,
        a.principal@ == b.principal@ ==> a.authenticated() == b.authenticated(),
{
}

} // verus!
