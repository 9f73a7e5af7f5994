//! Tool execution behind a permission check.
use vstd::prelude::*;
use crate::policy::{Permission, Policy};
use crate::text::{chars_of, join, join_chars, str_eq, string_of};

verus! {

/// A request to run a named tool with arguments.
#[derive(Debug, Clone)]
pub struct ToolRequest {
    pub name: String,
    pub args: Vec<String>,
}

/// Why a tool did not run.
#[derive(Debug, Clone, PartialEq, Eq, Structural)]
pub enum SandboxError {
    PermissionDenied,
    ToolNotFound,
}

impl SandboxError {
    /// The variant's name, as `{:?}` renders it.
    pub fn debug_name(&self) -> (r: String)
        ensures
            r@ == sandbox_error_name(*self),
    {
        match self {
            SandboxError::PermissionDenied => String::from_str("PermissionDenied"),
            SandboxError::ToolNotFound => String::from_str("ToolNotFound"),
        }
    }
}

pub open spec fn sandbox_error_name(e: SandboxError) -> Seq<char> {
    match e {
        SandboxError::PermissionDenied => "PermissionDenied"@,
        SandboxError::ToolNotFound => "ToolNotFound"@,
    }
}

/// A place where tools run.
pub trait ToolSandbox {
    /// Whether `reply` is what this sandbox may give for `request` under
    /// `policy`; a sandbox that does not say admits every reply.
    open spec fn answers(&self, policy: Policy, request: ToolRequest, reply: Result<String, SandboxError>) -> bool {
        true
    }

    fn execute(&self, policy: &Policy, request: &ToolRequest) -> (r: Result<String, SandboxError>)
        ensures
            self.answers(*policy, *request, r),
    ;
}

/// A boxed sandbox runs tools as the sandbox inside it does.
impl<T: ToolSandbox + ?Sized> ToolSandbox for Box<T> {
    open spec fn answers(&self, policy: Policy, request: ToolRequest, reply: Result<String, SandboxError>) -> bool {
        (**self).answers(policy, request, reply)
    }

    fn execute(&self, policy: &Policy, request: &ToolRequest) -> (r: Result<String, SandboxError>) {
        (**self).execute(policy, request)
    }
}

/// The views of a list of strings.
pub open spec fn views(v: Seq<String>) -> Seq<Seq<char>> {
    v.map_values(|s: String| s@)
}

/// What the default sandbox does: nothing without the `ToolExec`
/// permission; the `echo` tool gives its arguments joined by spaces; any
/// other tool is unknown.
pub open spec fn deny_by_default_result(allowed: Set<Permission>, request: ToolRequest) -> Result<
    Seq<char>,
    SandboxError,
> {
    if !allowed.contains(Permission::ToolExec) {
        Err(SandboxError::PermissionDenied)
    } else if request.name@ == "echo"@ {
        Ok(join(views(request.args@), " "@))
    } else {
        Err(SandboxError::ToolNotFound)
    }
}

/// The sandbox that runs only the built-in `echo` tool, and only when the
/// policy grants `ToolExec`.
#[derive(Debug, Default)]
pub struct DenyByDefaultSandbox;

/// The strings joined with single spaces.
pub fn join_with_spaces(args: &Vec<String>) -> (r: String)
    ensures
        r@ == join(views(args@), " "@),
{
    let mut parts: Vec<Vec<char>> = Vec::new();
    let n = args.len();
    for i in 0..n
        invariant
            n == args@.len(),
            parts@.len() == i,
            forall|j: int| 0 <= j < i ==> #[trigger] parts@[j]@ == args@[j]@,
    {
        parts.push(chars_of(args[i].as_str()));
    }
    assert(parts@.map_values(|v: Vec<char>| v@) == views(args@));
    let sep = chars_of(" ");
    let out = join_chars(parts.as_slice(), sep.as_slice());
    string_of(out.as_slice())
}

/// The default sandbox's reply for `request` under the permissions
/// `allowed`.
pub open spec fn deny_by_default_reply(
    allowed: Set<Permission>,
    request: ToolRequest,
    reply: Result<String, SandboxError>,
) -> bool {
    match deny_by_default_result(allowed, request) {
        Ok(out) => reply matches Ok(s) && s@ == out,
        Err(e) => reply == Err::<String, SandboxError>(e),
    }
}

impl ToolSandbox for DenyByDefaultSandbox {
    open spec fn answers(&self, policy: Policy, request: ToolRequest, reply: Result<String, SandboxError>) -> bool {
        deny_by_default_reply(policy@, request, reply)
    }

    fn execute(&self, policy: &Policy, request: &ToolRequest) -> (r: Result<String, SandboxError>)
        ensures
            deny_by_default_reply(policy@, *request, r),
    {
        if !policy.allows(&Permission::ToolExec) {
            return Err(SandboxError::PermissionDenied);
        }
        if str_eq(request.name.as_str(), "echo") {
            Ok(join_with_spaces(&request.args))
        } else {
            Err(SandboxError::ToolNotFound)
        }
    }
}

} // verus!
