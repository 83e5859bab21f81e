//! The values that describe a hook instance: what was asked for, and how the
//! run stands.
use crate::clock::Timestamp;
use crate::config::{Hook, HookView};
use crate::string_map::StringMap;
use vstd::prelude::*;
use vstd::string::*;

verus! {

/// Configuration for running a hook that's passed when creating a hook instance
#[derive(Debug, PartialEq, Eq)]
pub struct CreateConfig {
    /// Map of environment variables passed to the hook when executed. These
    /// will be filtered down to the allowed set configured for the hook before
    /// execution begins.
    pub vars: StringMap,
}

impl View for CreateConfig {
    type V = Map<Seq<char>, Seq<char>>;

    open spec fn view(&self) -> Map<Seq<char>, Seq<char>> {
        self.vars@
    }
}

impl CreateConfig {
    /// Filters the map of variables down to the allowed set of variables for
    /// this hook
    pub fn filter(&mut self, allowed_keys: &[String])
        ensures
            final(self)@ == old(self)@.restrict(allowed_keys.deep_view().to_set()),
    {
        self.vars.retain_keys(allowed_keys);
    }
}

/// After filtering, a variable is held exactly if it was given and its key is
/// allowed, with the value it was given; no other key appears.
pub proof fn lemma_filter_is_intersection(
    vars: Map<Seq<char>, Seq<char>>,
    allowed_keys: Seq<Seq<char>>,
    key: Seq<char>,
)
    ensures
        vars.restrict(allowed_keys.to_set()).contains_key(key) <==> vars.contains_key(key)
            && allowed_keys.contains(key),
        vars.restrict(allowed_keys.to_set()).contains_key(key) ==> vars.restrict(
            allowed_keys.to_set(),
        )[key] == vars[key],
        vars.restrict(allowed_keys.to_set()).dom() == vars.dom().intersect(allowed_keys.to_set()),
{
    assert(vars.restrict(allowed_keys.to_set()).dom() =~= vars.dom().intersect(
        allowed_keys.to_set(),
    ));
}

/// Request parameters of a hook instance spawning request
#[derive(Debug, PartialEq, Eq)]
pub struct Request {
    /// URI used for the request
    pub uri: String,
    /// Method used for the request
    pub method: String,
    /// HTTP version used for the request
    pub version: String,
    /// HTTP headers passed in the request
    pub headers: StringMap,
    /// Address of the peer that sent the request, where it is known
    pub peer_address: Option<String>,
}

/// What a `Request` holds, as plain values.
pub struct RequestView {
    pub uri: Seq<char>,
    pub method: Seq<char>,
    pub version: Seq<char>,
    pub headers: Map<Seq<char>, Seq<char>>,
    pub peer_address: Option<Seq<char>>,
}

impl View for Request {
    type V = RequestView;

    open spec fn view(&self) -> RequestView {
        RequestView {
            uri: self.uri@,
            method: self.method@,
            version: self.version@,
            headers: self.headers@,
            peer_address: match self.peer_address {
                Some(peer) => Some(peer@),
                None => None,
            },
        }
    }
}

/// A header as it came in: its name, and its value where the value is text.
pub type RawHeader = (Seq<char>, Option<Seq<char>>);

/// The headers that a request snapshot keeps of the headers that came in:
/// those whose value is text, a later one of the same name in place of an
/// earlier one.
pub open spec fn kept_headers(raw: Seq<RawHeader>) -> Map<Seq<char>, Seq<char>>
    decreases raw.len(),
{
    if raw.len() == 0 {
        Map::empty()
    } else {
        let earlier = kept_headers(raw.drop_last());
        match raw.last().1 {
            Some(value) => earlier.insert(raw.last().0, value),
            None => earlier,
        }
    }
}

impl Request {
    /// Takes the snapshot of an incoming request from its parts. A header
    /// whose value is not text comes as `None` and is left out.
    pub fn from_request_parts(
        uri: String,
        method: String,
        version: String,
        headers: &Vec<(String, Option<String>)>,
        peer_address: Option<String>,
    ) -> (request: Self)
        ensures
            request@ == (RequestView {
                uri: uri@,
                method: method@,
                version: version@,
                headers: kept_headers(headers.deep_view()),
                peer_address: peer_address.deep_view(),
            }),
    {
        let mut kept = StringMap::new();
        let mut i: usize = 0;
        while i < headers.len()
            invariant
                i <= headers@.len(),
                kept@ == kept_headers(headers.deep_view().subrange(0, i as int)),
            decreases headers@.len() - i,
        {
            let ghost raw = headers.deep_view();
            assert(raw.subrange(0, i + 1).drop_last() =~= raw.subrange(0, i as int));
            assert(raw.subrange(0, i + 1).last() == raw[i as int]);
            match &headers[i].1 {
                Some(value) => {
                    kept.insert(headers[i].0.clone(), value.clone());
                },
                None => {},
            }
            i = i + 1;
        }
        assert(headers.deep_view().subrange(0, i as int) =~= headers.deep_view());
        Request { uri, method, version, headers: kept, peer_address }
    }
}

/// A header whose value is text is kept under its name, unless a later
/// header of that name takes its place; a name that no header with a text
/// value bears is not kept.
pub proof fn lemma_kept_headers_last_wins(raw: Seq<RawHeader>, i: int)
    requires
        0 <= i < raw.len(),
        raw[i].1 is Some,
        forall|j: int| i < j < raw.len() && raw[j].1 is Some ==> (#[trigger] raw[j]).0 != raw[i].0,
    ensures
        kept_headers(raw).contains_key(raw[i].0),
        kept_headers(raw)[raw[i].0] == raw[i].1->0,
    decreases raw.len(),
{
    if i == raw.len() - 1 {
    } else {
        let earlier = raw.drop_last();
        assert forall|j: int| i < j < earlier.len() && earlier[j].1 is Some implies (
        #[trigger] earlier[j]).0 != earlier[i].0 by {
            assert(earlier[j] == raw[j]);
        }
        lemma_kept_headers_last_wins(earlier, i);
        assert(raw.last() == raw[raw.len() - 1]);
    }
}

/// A name is kept exactly if a header with a text value bears it.
pub proof fn lemma_kept_headers_names(raw: Seq<RawHeader>, name: Seq<char>)
    ensures
        kept_headers(raw).contains_key(name) <==> exists|i: int|
            0 <= i < raw.len() && (#[trigger] raw[i]).0 == name && raw[i].1 is Some,
    decreases raw.len(),
{
    if raw.len() > 0 {
        let earlier = raw.drop_last();
        lemma_kept_headers_names(earlier, name);
        if kept_headers(raw).contains_key(name) {
            if kept_headers(earlier).contains_key(name) {
                let i = choose|i: int|
                    0 <= i < earlier.len() && (#[trigger] earlier[i]).0 == name && earlier[i].1
                        is Some;
                assert(raw[i] == earlier[i]);
            } else {
                assert(raw[raw.len() - 1].0 == name && raw[raw.len() - 1].1 is Some);
            }
        }
        if exists|i: int| 0 <= i < raw.len() && (#[trigger] raw[i]).0 == name && raw[i].1 is Some {
            let i = choose|i: int|
                0 <= i < raw.len() && (#[trigger] raw[i]).0 == name && raw[i].1 is Some;
            if i < earlier.len() {
                assert(earlier[i] == raw[i]);
            }
        }
    }
}

/// Info about a hook instance
#[derive(Debug, PartialEq, Eq)]
pub struct Info {
    /// Request parameters of the http request that started this hook instance
    pub request: Request,
    /// Configuration for this hook as provided in the config
    pub config: Hook,
    /// The variables the hook was started with, after filtering
    pub vars: Option<StringMap>,
    /// Whether the hook instance is still running
    pub running: bool,
    /// Time when the hook instance was started, UTC
    pub started: Timestamp,
    /// Time when the hook instance has finished, UTC
    pub finished: Option<Timestamp>,
    /// Whether the hook was successful
    pub success: Option<bool>,
}

/// What an `Info` holds, as plain values.
pub struct InfoView {
    pub request: RequestView,
    pub config: HookView,
    pub vars: Option<Map<Seq<char>, Seq<char>>>,
    pub running: bool,
    pub started: Timestamp,
    pub finished: Option<Timestamp>,
    pub success: Option<bool>,
}

impl View for Info {
    type V = InfoView;

    open spec fn view(&self) -> InfoView {
        InfoView {
            request: self.request@,
            config: self.config@,
            vars: match self.vars {
                Some(vars) => Some(vars@),
                None => None,
            },
            running: self.running,
            started: self.started,
            finished: self.finished,
            success: self.success,
        }
    }
}

impl InfoView {
    /// The rule of the status record: while the instance runs, neither the
    /// end nor the outcome is known; once it has ended, both are.
    pub open spec fn is_consistent(self) -> bool {
        if self.running {
            self.finished is None && self.success is None
        } else {
            self.finished is Some && self.success is Some
        }
    }

    /// The record of an instance that has just been started.
    pub open spec fn initial(
        request: RequestView,
        config: HookView,
        vars: Map<Seq<char>, Seq<char>>,
        started: Timestamp,
    ) -> InfoView {
        InfoView {
            request,
            config,
            vars: Some(vars),
            running: true,
            started,
            finished: None,
            success: None,
        }
    }

    /// The record after the instance has ended at `finished`, successfully
    /// or not.
    pub open spec fn finish(self, success: bool, finished: Timestamp) -> InfoView {
        InfoView { running: false, finished: Some(finished), success: Some(success), ..self }
    }
}

impl Info {
    /// The record of an instance that is started at `started`.
    pub fn initial(hook: &Hook, vars: &StringMap, request: Request, started: Timestamp) -> (info:
        Self)
        ensures
            info@ == InfoView::initial(request@, hook@, vars@, started),
    {
        Info {
            request,
            config: hook.clone(),
            vars: Some(vars.clone()),
            running: true,
            started,
            finished: None,
            success: None,
        }
    }

    /// Records that the instance has ended at `finished`; nothing else of
    /// the record changes.
    pub fn finish(self, success: bool, finished: Timestamp) -> (info: Self)
        ensures
            info@ == self@.finish(success, finished),
    {
        Info {
            request: self.request,
            config: self.config,
            vars: self.vars,
            running: false,
            started: self.started,
            finished: Some(finished),
            success: Some(success),
        }
    }
}

/// A record is consistent when the instance is started, and consistent again
/// once it has ended, whatever it held before; the end is then not before
/// the start where the clock has not gone back.
pub proof fn lemma_record_lifecycle(
    request: RequestView,
    config: HookView,
    vars: Map<Seq<char>, Seq<char>>,
    started: Timestamp,
    success: bool,
    finished: Timestamp,
)
    ensures
        InfoView::initial(request, config, vars, started).is_consistent(),
        InfoView::initial(request, config, vars, started).running,
        InfoView::initial(request, config, vars, started).finish(success, finished).is_consistent(),
        !InfoView::initial(request, config, vars, started).finish(success, finished).running,
        InfoView::initial(request, config, vars, started).finish(success, finished).success == Some(
            success,
        ),
        finished.spec_not_before(started) ==> InfoView::initial(
            request,
            config,
            vars,
            started,
        ).finish(success, finished).finished->0.spec_not_before(started),
{
}

} // verus!
