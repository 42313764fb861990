use vstd::prelude::*;

verus! {

/// Tenant identity and call bookkeeping handed to a component.
#[derive(Debug)]
pub struct TenantCtx {
    pub tenant: String,
    pub team: Option<String>,
    pub user: Option<String>,
    pub trace_id: Option<String>,
    pub i18n_id: Option<String>,
    pub correlation_id: Option<String>,
    pub deadline_unix_ms: Option<u64>,
    pub attempt: u32,
    pub idempotency_key: Option<String>,
}

/// Execution context of one component call.
#[derive(Debug)]
pub struct ExecCtx {
    pub tenant: TenantCtx,
    pub i18n_id: Option<String>,
    pub flow_id: String,
    pub node_id: Option<String>,
}

/// A component-reported error.
#[derive(Debug)]
pub struct NodeError {
    pub code: String,
    pub message: String,
    pub retryable: bool,
    pub backoff_ms: Option<u64>,
    pub details: Option<String>,
}

/// What a component invocation returned.
#[derive(Debug)]
pub enum InvokeResult {
    Okay(String),
    Failed(NodeError),
}

fn oclone(o: &Option<String>) -> (r: Option<String>)
    ensures
        r == *o,
{
    match o {
        Some(s) => Some(s.clone()),
        None => None,
    }
}

/// Builds the execution context of one operator invocation: the deadline is
/// `now + timeout` in Unix milliseconds when a timeout is set and the sum
/// fits, the attempt is one, the correlation id doubles as the idempotency
/// key, and the flow id is `operator/<op>`.
pub fn build_exec_ctx(
    tenant: &str,
    trace_id: Option<&str>,
    correlation_id: Option<&str>,
    timeout_ms: Option<u64>,
    now_unix_ms: u64,
    operation_id: &str,
) -> (r: ExecCtx)
    ensures
        r.tenant.tenant@ == tenant@,
        r.tenant.team is None,
        r.tenant.user is None,
        match (r.tenant.trace_id, trace_id) {
            (Some(a), Some(b)) => a@ == b@,
            (None, None) => true,
            _ => false,
        },
        match (r.tenant.correlation_id, correlation_id) {
            (Some(a), Some(b)) => a@ == b@,
            (None, None) => true,
            _ => false,
        },
        match (r.tenant.idempotency_key, correlation_id) {
            (Some(a), Some(b)) => a@ == b@,
            (None, None) => true,
            _ => false,
        },
        r.tenant.deadline_unix_ms == (match timeout_ms {
            Some(t) => if now_unix_ms + t <= u64::MAX {
                Some((now_unix_ms + t) as u64)
            } else {
                None::<u64>
            },
            None => None::<u64>,
        }),
        r.tenant.attempt == 1,
        r.tenant.i18n_id is None,
        r.i18n_id is None,
        r.flow_id@ == "operator/"@ + operation_id@,
        r.node_id is None,
{
    let deadline_unix_ms: Option<u64> = match timeout_ms {
        Some(t) => {
            if now_unix_ms <= u64::MAX - t {
                Some(now_unix_ms + t)
            } else {
                None
            }
        },
        None => None,
    };
    let mut flow_id = "operator/".to_owned();
    flow_id.append(operation_id);
    ExecCtx {
        tenant: TenantCtx {
            tenant: tenant.to_owned(),
            team: None,
            user: None,
            trace_id: match trace_id {
                Some(t) => Some(t.to_owned()),
                None => None,
            },
            i18n_id: None,
            correlation_id: match correlation_id {
                Some(c) => Some(c.to_owned()),
                None => None,
            },
            deadline_unix_ms,
            attempt: 1,
            idempotency_key: match correlation_id {
                Some(c) => Some(c.to_owned()),
                None => None,
            },
        },
        i18n_id: None,
        flow_id,
        node_id: None,
    }
}

/// Fields of a v0.4 node execution context.
#[derive(Debug)]
pub struct ExecCtxV04 {
    pub tenant: String,
    pub team: Option<String>,
    pub user: Option<String>,
    pub trace_id: Option<String>,
    pub correlation_id: Option<String>,
    pub deadline_unix_ms: Option<u64>,
    pub attempt: u32,
    pub idempotency_key: Option<String>,
    pub flow_id: String,
    pub node_id: Option<String>,
}

/// Maps an execution context onto the v0.4 node surface, field for field.
pub fn exec_ctx_v0_4(ctx: &ExecCtx) -> (r: ExecCtxV04)
    ensures
        r.tenant@ == ctx.tenant.tenant@,
        r.team == ctx.tenant.team,
        r.user == ctx.tenant.user,
        r.trace_id == ctx.tenant.trace_id,
        r.correlation_id == ctx.tenant.correlation_id,
        r.deadline_unix_ms == ctx.tenant.deadline_unix_ms,
        r.attempt == ctx.tenant.attempt,
        r.idempotency_key == ctx.tenant.idempotency_key,
        r.flow_id@ == ctx.flow_id@,
        r.node_id == ctx.node_id,
{
    ExecCtxV04 {
        tenant: ctx.tenant.tenant.clone(),
        team: oclone(&ctx.tenant.team),
        user: oclone(&ctx.tenant.user),
        trace_id: oclone(&ctx.tenant.trace_id),
        correlation_id: oclone(&ctx.tenant.correlation_id),
        deadline_unix_ms: ctx.tenant.deadline_unix_ms,
        attempt: ctx.tenant.attempt,
        idempotency_key: oclone(&ctx.tenant.idempotency_key),
        flow_id: ctx.flow_id.clone(),
        node_id: oclone(&ctx.node_id),
    }
}

/// Fields of a v0.5 node execution context: the tenant doubles as its id,
/// the correlation id doubles as the session id, and the deadline narrows
/// to a signed value.
#[derive(Debug)]
pub struct ExecCtxV05 {
    pub env: String,
    pub tenant: String,
    pub tenant_id: String,
    pub team: Option<String>,
    pub team_id: Option<String>,
    pub user: Option<String>,
    pub user_id: Option<String>,
    pub trace_id: Option<String>,
    pub i18n_id: Option<String>,
    pub correlation_id: Option<String>,
    pub session_id: Option<String>,
    pub flow_id: Option<String>,
    pub node_id: Option<String>,
    pub provider_id: Option<String>,
    pub deadline_ms: Option<i64>,
    pub attempt: u32,
    pub idempotency_key: Option<String>,
}

/// Maps an execution context onto the v0.5 node surface. The environment
/// name comes from the caller; a deadline above `i64` is dropped.
pub fn exec_ctx_v0_5(ctx: &ExecCtx, env: &str) -> (r: ExecCtxV05)
    ensures
        r.env@ == env@,
        r.tenant@ == ctx.tenant.tenant@,
        r.tenant_id@ == ctx.tenant.tenant@,
        r.team == ctx.tenant.team,
        r.team_id == ctx.tenant.team,
        r.user == ctx.tenant.user,
        r.user_id == ctx.tenant.user,
        r.trace_id == ctx.tenant.trace_id,
        r.i18n_id == ctx.tenant.i18n_id,
        r.correlation_id == ctx.tenant.correlation_id,
        r.session_id == ctx.tenant.correlation_id,
        r.flow_id matches Some(f) && f@ == ctx.flow_id@,
        r.node_id == ctx.node_id,
        r.provider_id is None,
        r.deadline_ms == (match ctx.tenant.deadline_unix_ms {
            Some(d) => if d <= i64::MAX as u64 {
                Some(d as i64)
            } else {
                None::<i64>
            },
            None => None::<i64>,
        }),
        r.attempt == ctx.tenant.attempt,
        r.idempotency_key == ctx.tenant.idempotency_key,
{
    let deadline_ms: Option<i64> = match ctx.tenant.deadline_unix_ms {
        Some(d) => {
            if d <= 0x7fffffffffffffff {
                Some(d as i64)
            } else {
                None
            }
        },
        None => None,
    };
    ExecCtxV05 {
        env: env.to_owned(),
        tenant: ctx.tenant.tenant.clone(),
        tenant_id: ctx.tenant.tenant.clone(),
        team: oclone(&ctx.tenant.team),
        team_id: oclone(&ctx.tenant.team),
        user: oclone(&ctx.tenant.user),
        user_id: oclone(&ctx.tenant.user),
        trace_id: oclone(&ctx.tenant.trace_id),
        i18n_id: oclone(&ctx.tenant.i18n_id),
        correlation_id: oclone(&ctx.tenant.correlation_id),
        session_id: oclone(&ctx.tenant.correlation_id),
        flow_id: Some(ctx.flow_id.clone()),
        node_id: oclone(&ctx.node_id),
        provider_id: None,
        deadline_ms,
        attempt: ctx.tenant.attempt,
        idempotency_key: oclone(&ctx.tenant.idempotency_key),
    }
}

/// A component result on either node surface, mapped back to the host's
/// shape; both surfaces carry the same fields.
pub fn invoke_result_from_parts(
    ok_body: Option<String>,
    err: Option<NodeError>,
) -> (r: InvokeResult)
    ensures
        ok_body matches Some(b) ==> (r matches InvokeResult::Okay(body) && body@ == b@),
        ok_body is None ==> (match err {
            Some(e) => r matches InvokeResult::Failed(ne) && ne.code@ == e.code@ && ne.message@
                == e.message@ && ne.retryable == e.retryable && ne.backoff_ms == e.backoff_ms
                && ne.details == e.details,
            None => true,
        }),
        ok_body is None && err is None ==> (r matches InvokeResult::Failed(ne) && ne.code@
            == "invoke_failed"@),
{
    match ok_body {
        Some(b) => InvokeResult::Okay(b),
        None => match err {
            Some(e) => InvokeResult::Failed(e),
            None => InvokeResult::Failed(
                NodeError {
                    code: "invoke_failed".to_owned(),
                    message: "component returned no result".to_owned(),
                    retryable: false,
                    backoff_ms: None,
                    details: None,
                },
            ),
        },
    }
}

} // verus!
