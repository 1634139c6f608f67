//! Which motor backend a run-connect request asks for.

use vstd::prelude::*;

use crate::text::{chars_of, opt_chars, push_chars, push_str, string_of, vec_eq_str};

verus! {

/// The backend a connect request asks for, with what opening it needs.
#[derive(Clone, Debug)]
pub enum BackendPlan {
    /// In-process mock.
    Mock,
    /// Stepper firmware over a serial path or `host:port`.
    Stepper { device: String },
    /// ODrive ASCII protocol over a serial path or `host:port`.
    ODrive { device: String },
    /// Several boards driven through an axis map; `mock` fans out to
    /// in-process mocks instead of opening devices.
    MultiBoard { mock: bool },
}

/// The outcome of [`plan_backend`], by plain values: the backend kind's
/// request name, the device where one is used, and the multi-board mock flag.
pub enum PlanSpec {
    Mock,
    Stepper { device: Seq<char> },
    ODrive { device: Seq<char> },
    MultiBoard { mock: bool },
}

impl View for BackendPlan {
    type V = PlanSpec;

    open spec fn view(&self) -> PlanSpec {
        match self {
            BackendPlan::Mock => PlanSpec::Mock,
            BackendPlan::Stepper { device } => PlanSpec::Stepper { device: device@ },
            BackendPlan::ODrive { device } => PlanSpec::ODrive { device: device@ },
            BackendPlan::MultiBoard { mock } => PlanSpec::MultiBoard { mock: *mock },
        }
    }
}

/// The plan for a request naming `backend`, with an optional device, whether
/// an axis map came with it, and the multi-board mock flag.
pub open spec fn plan_spec(
    backend: Seq<char>,
    device: Option<Seq<char>>,
    has_axis_map: bool,
    mock: bool,
) -> Result<PlanSpec, Seq<char>> {
    if backend == "mock"@ {
        Ok(PlanSpec::Mock)
    } else if backend == "stepper"@ {
        match device {
            Some(d) => Ok(PlanSpec::Stepper { device: d }),
            None => Err("stepper requires device path or host:port"@),
        }
    } else if backend == "odrive"@ {
        match device {
            Some(d) => Ok(PlanSpec::ODrive { device: d }),
            None => Err("odrive requires device path or host:port"@),
        }
    } else if backend == "multiboard"@ {
        if has_axis_map {
            Ok(PlanSpec::MultiBoard { mock })
        } else {
            Err("multiboard requires axis_map JSON"@)
        }
    } else {
        Err("unknown backend: "@ + backend)
    }
}

/// The name a session reports for its backend.
pub open spec fn plan_name(p: PlanSpec) -> Seq<char> {
    match p {
        PlanSpec::Mock => "mock"@,
        PlanSpec::Stepper { .. } => "stepper"@,
        PlanSpec::ODrive { .. } => "odrive"@,
        PlanSpec::MultiBoard { mock } => if mock {
            "multiboard-mock"@
        } else {
            "multiboard"@
        },
    }
}

fn copy_text(o: &Option<String>) -> (r: Option<String>)
    ensures
        opt_chars(r) == opt_chars(*o),
{
    match o {
        Some(t) => Some(t.clone()),
        None => None,
    }
}

/// Decides the backend of a connect request ([`plan_spec`]).
pub fn plan_backend(backend: &str, device: &Option<String>, has_axis_map: bool, mock: bool) -> (r:
    Result<BackendPlan, String>)
    ensures
        match plan_spec(backend@, opt_chars(*device), has_axis_map, mock) {
            Ok(p) => r matches Ok(x) && x@ == p,
            Err(e) => r matches Err(m) && m@ == e,
        },
{
    let b = chars_of(backend);
    if vec_eq_str(&b, "mock") {
        Ok(BackendPlan::Mock)
    } else if vec_eq_str(&b, "stepper") {
        match copy_text(device) {
            Some(d) => Ok(BackendPlan::Stepper { device: d }),
            None => Err("stepper requires device path or host:port".to_owned()),
        }
    } else if vec_eq_str(&b, "odrive") {
        match copy_text(device) {
            Some(d) => Ok(BackendPlan::ODrive { device: d }),
            None => Err("odrive requires device path or host:port".to_owned()),
        }
    } else if vec_eq_str(&b, "multiboard") {
        if has_axis_map {
            Ok(BackendPlan::MultiBoard { mock })
        } else {
            Err("multiboard requires axis_map JSON".to_owned())
        }
    } else {
        let mut m: Vec<char> = Vec::new();
        push_str(&mut m, "unknown backend: ");
        push_chars(&mut m, &b);
        Err(string_of(&m))
    }
}

impl BackendPlan {
    /// The name a session reports for this backend ([`plan_name`]).
    pub fn name(&self) -> (s: &'static str)
        ensures
            s@ == plan_name(self@),
    {
        match self {
            BackendPlan::Mock => "mock",
            BackendPlan::Stepper { .. } => "stepper",
            BackendPlan::ODrive { .. } => "odrive",
            BackendPlan::MultiBoard { mock } => if *mock {
                "multiboard-mock"
            } else {
                "multiboard"
            },
        }
    }
}

/// Pad or trim per-cable motor settings to `n` cables: entry `i` is the
/// stored one where there is one, else `fill`.
pub fn pad_motor_axes<T: Copy>(stored: &[T], n: usize, fill: T) -> (r: Vec<T>)
    ensures
        r@.len() == n,
        forall|i: int| 0 <= i < n ==> r@[i] == (if i < stored@.len() { stored@[i] } else { fill }),
{
    let mut out: Vec<T> = Vec::new();
    let mut i: usize = 0;
    while i < n
        invariant
            0 <= i <= n,
            out@.len() == i,
            forall|j: int| 0 <= j < i ==> out@[j] == (if j < stored@.len() { stored@[j] } else { fill }),
        decreases n - i,
    {
        if i < stored.len() {
            out.push(stored[i]);
        } else {
            out.push(fill);
        }
        i = i + 1;
    }
    out
}


/// A plan is of the kind its request names, carries the requested device,
/// and reports the requested name (with `-mock` added for a mock multi-board
/// run). A request is planned exactly when it names a known backend and
/// brings what that backend needs: a device for a stepper or an ODrive, an
/// axis map for a multi-board run.
pub proof fn lemma_plan_follows_request(
    backend: Seq<char>,
    device: Option<Seq<char>>,
    has_axis_map: bool,
    mock: bool,
)
    ensures
        plan_spec(backend, device, has_axis_map, mock) is Ok <==> {
            ||| backend == "mock"@
            ||| (backend == "stepper"@ || backend == "odrive"@) && device is Some
            ||| backend == "multiboard"@ && has_axis_map
        },
        plan_spec(backend, device, has_axis_map, mock) matches Ok(p) ==> {
            &&& (p is Mock <==> backend == "mock"@)
            &&& (p is Stepper <==> backend == "stepper"@)
            &&& (p is ODrive <==> backend == "odrive"@)
            &&& (p is MultiBoard <==> backend == "multiboard"@)
            &&& p matches PlanSpec::Stepper { device: d } ==> device == Some(d)
            &&& p matches PlanSpec::ODrive { device: d } ==> device == Some(d)
            &&& p matches PlanSpec::MultiBoard { mock: m } ==> m == mock
            &&& plan_name(p) == if p is MultiBoard && mock {
                backend + "-mock"@
            } else {
                backend
            }
        },
        (backend == "stepper"@ || backend == "odrive"@) && device is None ==> plan_spec(
            backend,
            device,
            has_axis_map,
            mock,
        ) == Err::<PlanSpec, Seq<char>>(backend + " requires device path or host:port"@),
        backend == "multiboard"@ && !has_axis_map ==> plan_spec(backend, device, has_axis_map, mock)
            == Err::<PlanSpec, Seq<char>>("multiboard requires axis_map JSON"@),
        !(backend == "mock"@ || backend == "stepper"@ || backend == "odrive"@ || backend == "multiboard"@)
            ==> plan_spec(backend, device, has_axis_map, mock) == Err::<PlanSpec, Seq<char>>(
            "unknown backend: "@ + backend,
        ),
{
    reveal_strlit("mock");
    reveal_strlit("stepper");
    reveal_strlit("odrive");
    reveal_strlit("multiboard");
    reveal_strlit("-mock");
    reveal_strlit("multiboard-mock");
    assert("multiboard"@ + "-mock"@ =~= "multiboard-mock"@);
    assert("mock"@ != "stepper"@ && "mock"@ != "odrive"@ && "mock"@ != "multiboard"@) by {
        assert("mock"@[0] != "stepper"@[0] && "mock"@[0] != "odrive"@[0]);
        assert("mock"@.len() != "multiboard"@.len());
    }
    assert("stepper"@ != "odrive"@ && "stepper"@ != "multiboard"@ && "odrive"@ != "multiboard"@) by {
        assert("stepper"@[0] != "odrive"@[0] && "stepper"@[0] != "multiboard"@[0] && "odrive"@[0] != "multiboard"@[0]);
    }
    reveal_strlit(" requires device path or host:port");
    reveal_strlit("stepper requires device path or host:port");
    reveal_strlit("odrive requires device path or host:port");
    assert("stepper"@ + " requires device path or host:port"@ =~= "stepper requires device path or host:port"@);
    assert("odrive"@ + " requires device path or host:port"@ =~= "odrive requires device path or host:port"@);
}

} // verus!
