//! The path every query takes: the type gate, then the cache, then the local
//! records, then the upstream resolver.
//!
//! The handler itself never waits. `handle_request` decides everything that
//! can be decided without the network and says whether the query has to be
//! forwarded; the caller performs the upstream lookup and hands its outcome to
//! `handle_lookup`. The cache is passed in for the length of one call, so a
//! lock around it is never held while the lookup runs.

use crate::cache::{
    entry_at, lemma_max_ttl_is_max, lifetime, visible, Cache, CacheKey, EntryView, DEFAULT_TTL,
};
use crate::clock::now_millis;
use crate::domain::{local_answers, DomainEntryView, LocalIndex};
use crate::record::{views, RecordType, RecordView, ResolvedRecord, LOCAL_TTL};
use vstd::prelude::*;

verus! {

/// The status of a response.
#[derive(Clone, Copy, Debug, PartialEq, Eq, Structural)]
pub enum ResponseCode {
    /// The query was answered, possibly with no records.
    NoError,
    /// The upstream resolver failed.
    ServFail,
    /// The query is of a kind this server does not answer.
    NotImp,
}

impl ResponseCode {
    /// The number of the status in a DNS header: 0 for `NoError`, 2 for
    /// `ServFail`, 4 for `NotImp`.
    pub open spec fn number(self) -> u8 {
        match self {
            ResponseCode::NoError => 0,
            ResponseCode::ServFail => 2,
            ResponseCode::NotImp => 4,
        }
    }

    /// The number of the status in a DNS header.
    pub fn rcode(&self) -> (n: u8)
        ensures
            n == self.number(),
    {
        match self {
            ResponseCode::NoError => 0,
            ResponseCode::ServFail => 2,
            ResponseCode::NotImp => 4,
        }
    }
}

/// One question put to the server: the name exactly as it was asked, and the
/// kind of record wanted.
#[derive(Debug, PartialEq, Eq)]
pub struct Query {
    pub name: String,
    pub query_type: RecordType,
}

/// `Query` as a mathematical value.
pub ghost struct QueryView {
    pub name: Seq<char>,
    pub query_type: RecordType,
}

impl View for Query {
    type V = QueryView;

    open spec fn view(&self) -> QueryView {
        QueryView { name: self.name@, query_type: self.query_type }
    }
}

impl QueryView {
    /// The key under which answers to the query are cached.
    pub open spec fn key(self) -> CacheKey {
        CacheKey { rt: self.query_type, name: self.name }
    }
}

/// The part of the path that settles a query.
#[derive(Clone, Copy, Debug, PartialEq, Eq, Structural)]
pub enum Tier {
    /// The type gate, which refuses what is no address query.
    Gate,
    /// The cache.
    Cache,
    /// The local records.
    Local,
    /// The upstream resolver.
    Remote,
}

/// What goes back to the client, and the tier it comes from.
#[derive(Debug, PartialEq, Eq)]
pub struct Response {
    pub code: ResponseCode,
    pub answers: Vec<ResolvedRecord>,
    pub tier: Tier,
}

/// `Response` as a mathematical value.
pub ghost struct ResponseView {
    pub code: ResponseCode,
    pub answers: Seq<RecordView>,
    pub tier: Tier,
}

impl View for Response {
    type V = ResponseView;

    open spec fn view(&self) -> ResponseView {
        ResponseView { code: self.code, answers: views(self.answers@), tier: self.tier }
    }
}

/// How an upstream lookup ended.
#[derive(Debug, PartialEq, Eq)]
pub enum Lookup {
    /// The resolver answered with these records, possibly none.
    Answered(Vec<ResolvedRecord>),
    /// The resolver failed, for whatever reason.
    Failed,
}

/// `Lookup` as a mathematical value.
pub ghost enum LookupView {
    Answered(Seq<RecordView>),
    Failed,
}

impl View for Lookup {
    type V = LookupView;

    open spec fn view(&self) -> LookupView {
        match *self {
            Lookup::Answered(records) => LookupView::Answered(views(records@)),
            Lookup::Failed => LookupView::Failed,
        }
    }
}

/// What the caller has to do after `handle_request`.
#[derive(Debug, PartialEq, Eq)]
pub enum Step {
    /// Send this response; the query is done.
    Respond(Response),
    /// Ask the upstream resolver, then call `handle_lookup` with the outcome.
    Forward,
}

/// `Step` as a mathematical value.
pub ghost enum StepView {
    Respond(ResponseView),
    Forward,
}

impl View for Step {
    type V = StepView;

    open spec fn view(&self) -> StepView {
        match *self {
            Step::Respond(response) => StepView::Respond(response@),
            Step::Forward => StepView::Forward,
        }
    }
}

/// What becomes of an upstream result that holds no record, be it a failure
/// or an empty answer.
#[derive(Clone, Copy, Debug, PartialEq, Eq, Structural)]
pub enum EmptyAnswers {
    /// It is cached like any other result. Until that entry goes stale the
    /// name is answered from the cache, with no records, and the resolver is
    /// not asked again.
    Cached,
    /// It is not cached, so the next query for the name goes upstream again.
    Skipped,
}

/// The response to a query of a kind that is not answered.
pub open spec fn refusal() -> ResponseView {
    ResponseView { code: ResponseCode::NotImp, answers: Seq::empty(), tier: Tier::Gate }
}

/// The response by which `tier` hands out `answers`.
pub open spec fn success(tier: Tier, answers: Seq<RecordView>) -> ResponseView {
    ResponseView { code: ResponseCode::NoError, answers, tier }
}

/// The response that an upstream outcome turns into: the resolver's records
/// on success, a server failure without records otherwise.
pub open spec fn remote_response(lookup: LookupView) -> ResponseView {
    match lookup {
        LookupView::Answered(records) => success(Tier::Remote, records),
        LookupView::Failed => ResponseView {
            code: ResponseCode::ServFail,
            answers: Seq::empty(),
            tier: Tier::Remote,
        },
    }
}

/// The store after `answers` were offered to it under `key` at `now`: filed
/// when there is at least one record or `always` is set, untouched otherwise.
pub open spec fn stored(
    store: Map<CacheKey, EntryView>,
    key: CacheKey,
    answers: Seq<RecordView>,
    now: int,
    always: bool,
) -> Map<CacheKey, EntryView> {
    if always || answers.len() > 0 {
        store.insert(key, entry_at(answers, now))
    } else {
        store
    }
}

/// The first half of the path, as a function: what the handler decides for
/// `query` at `now` from the cache and the local records alone, and the cache
/// it leaves behind.
pub open spec fn first_step(
    store: Map<CacheKey, EntryView>,
    domains: Seq<DomainEntryView>,
    query: QueryView,
    now: int,
) -> (StepView, Map<CacheKey, EntryView>) {
    if !query.query_type.is_address() {
        (StepView::Respond(refusal()), store)
    } else if let Some(cached) = visible(store, query.key(), now) {
        (StepView::Respond(success(Tier::Cache, cached)), store)
    } else {
        let local = local_answers(domains, query.query_type, query.name);
        if local.len() > 0 {
            (
                StepView::Respond(success(Tier::Local, local)),
                store.insert(query.key(), entry_at(local, now)),
            )
        } else {
            (StepView::Forward, store)
        }
    }
}

/// The second half of the path, as a function: the response to a forwarded
/// `query` once the upstream lookup has ended, and the cache left behind.
pub open spec fn second_step(
    store: Map<CacheKey, EntryView>,
    policy: EmptyAnswers,
    query: QueryView,
    lookup: LookupView,
    now: int,
) -> (ResponseView, Map<CacheKey, EntryView>) {
    let response = remote_response(lookup);
    (response, stored(store, query.key(), response.answers, now, policy is Cached))
}

/// A query that asks for no address is refused without records, whatever the
/// cache and the local records hold; the cache is left as it was and the query
/// is not forwarded.
pub proof fn lemma_type_gate(
    store: Map<CacheKey, EntryView>,
    domains: Seq<DomainEntryView>,
    query: QueryView,
    now: int,
)
    requires
        !query.query_type.is_address(),
    ensures
        first_step(store, domains, query, now) == (StepView::Respond(refusal()), store),
{
}

/// A fresh cache entry answers an address query with its own records,
/// whatever the local records would have answered.
pub proof fn lemma_cache_before_local(
    store: Map<CacheKey, EntryView>,
    domains: Seq<DomainEntryView>,
    query: QueryView,
    now: int,
)
    requires
        query.query_type.is_address(),
        store.contains_key(query.key()),
        now < store[query.key()].expires_at,
    ensures
        first_step(store, domains, query, now) == (
            StepView::Respond(success(Tier::Cache, store[query.key()].records)),
            store,
        ),
{
}

/// When the cache has nothing fresh, local records that answer the query are
/// the response, and the query is not forwarded.
pub proof fn lemma_local_before_remote(
    store: Map<CacheKey, EntryView>,
    domains: Seq<DomainEntryView>,
    query: QueryView,
    now: int,
)
    requires
        query.query_type.is_address(),
        visible(store, query.key(), now) is None,
        local_answers(domains, query.query_type, query.name).len() > 0,
    ensures
        first_step(store, domains, query, now).0 == StepView::Respond(
            success(Tier::Local, local_answers(domains, query.query_type, query.name)),
        ),
{
}

/// The lifetime of a cache entry made of local answers is the fixed lifetime
/// of a local record.
pub proof fn lemma_local_lifetime(domains: Seq<DomainEntryView>, rt: RecordType, name: Seq<char>)
    requires
        local_answers(domains, rt, name).len() > 0,
    ensures
        lifetime(local_answers(domains, rt, name)) == LOCAL_TTL,
{
    let answers = local_answers(domains, rt, name);
    lemma_max_ttl_is_max(answers);
}

/// Once the local records have answered a query, the same query is answered
/// from the cache with the same records until the fixed lifetime has run:
/// whatever the local records hold by then.
pub proof fn lemma_local_answer_is_cached(
    store: Map<CacheKey, EntryView>,
    domains: Seq<DomainEntryView>,
    later_domains: Seq<DomainEntryView>,
    query: QueryView,
    now: int,
    later: int,
)
    requires
        query.query_type.is_address(),
        visible(store, query.key(), now) is None,
        local_answers(domains, query.query_type, query.name).len() > 0,
        later < now + 1000 * LOCAL_TTL,
    ensures
        first_step(first_step(store, domains, query, now).1, later_domains, query, later).0
            == StepView::Respond(
            success(Tier::Cache, local_answers(domains, query.query_type, query.name)),
        ),
{
    lemma_local_lifetime(domains, query.query_type, query.name);
}

/// What a failed upstream lookup leaves behind, by policy. The response is a
/// server failure without records under either. Under `Skipped` the cache is
/// untouched and the same query is forwarded again. Under `Cached` the same
/// query is answered from the cache, with success and no records, until the
/// default lifetime has run.
pub proof fn lemma_failure_by_policy(
    store: Map<CacheKey, EntryView>,
    domains: Seq<DomainEntryView>,
    query: QueryView,
    now: int,
    later: int,
)
    requires
        first_step(store, domains, query, now).0 is Forward,
        now <= later < now + 1000 * DEFAULT_TTL,
    ensures
        forall|policy: EmptyAnswers|
            (#[trigger] second_step(store, policy, query, LookupView::Failed, now)).0 == (
            ResponseView {
                code: ResponseCode::ServFail,
                answers: Seq::empty(),
                tier: Tier::Remote,
            }),
        second_step(store, EmptyAnswers::Skipped, query, LookupView::Failed, now).1 == store,
        first_step(
            second_step(store, EmptyAnswers::Skipped, query, LookupView::Failed, now).1,
            domains,
            query,
            later,
        ).0 is Forward,
        first_step(
            second_step(store, EmptyAnswers::Cached, query, LookupView::Failed, now).1,
            domains,
            query,
            later,
        ).0 == StepView::Respond(success(Tier::Cache, Seq::empty())),
{
}

/// Answers queries from a list of local records and, through its caller, from
/// the cache and the upstream resolver.
pub struct Handler {
    pub domains: LocalIndex,
    pub empty_answers: EmptyAnswers,
}

impl Handler {
    /// A handler over the given local records. An upstream result without
    /// records is not cached: after a failure the next query for the name
    /// goes upstream again.
    pub fn new(domains: LocalIndex) -> (handler: Handler)
        ensures
            handler.domains == domains,
            handler.empty_answers == EmptyAnswers::Skipped,
    {
        Handler { domains, empty_answers: EmptyAnswers::Skipped }
    }

    /// A handler over the given local records that treats empty upstream
    /// results as `empty_answers` says.
    pub fn with_policy(domains: LocalIndex, empty_answers: EmptyAnswers) -> (handler: Handler)
        ensures
            handler.domains == domains,
            handler.empty_answers == empty_answers,
    {
        Handler { domains, empty_answers }
    }

    /// Reads the cached answers to the query as the clock stands at `now`.
    pub fn get_from_cache(cache: &Cache, query: &Query, now: i64) -> (found: Option<
        Vec<ResolvedRecord>,
    >)
        ensures
            match found {
                Some(records) => visible(cache@, query@.key(), now as int) == Some(
                    views(records@),
                ),
                None => visible(cache@, query@.key(), now as int) is None,
            },
    {
        cache.get_at(&query.query_type, query.name.as_str(), now)
    }

    /// Caches the answers to the query, unless there are none.
    pub fn add_to_cache(cache: &mut Cache, query: &Query, records: &[ResolvedRecord], now: i64)
        ensures
            final(cache)@ == stored(old(cache)@, query@.key(), views(records@), now as int, false),
    {
        if records.len() == 0 {
            return;
        }
        cache.insert_at(&query.query_type, query.name.as_str(), records, now);
    }

    /// Answers the query from the local records alone.
    pub fn local_request(&self, query: &Query) -> (response: Response)
        ensures
            response@ == success(
                Tier::Local,
                local_answers(self.domains@, query.query_type, query.name@),
            ),
    {
        let answers = self.domains.resolve_local(&query.query_type, query.name.as_str());
        Response { code: ResponseCode::NoError, answers, tier: Tier::Local }
    }

    /// Turns the outcome of an upstream lookup into a response.
    pub fn remote_request(lookup: Lookup) -> (response: Response)
        ensures
            response@ == remote_response(lookup@),
    {
        match lookup {
            Lookup::Answered(answers) => Response {
                code: ResponseCode::NoError,
                answers,
                tier: Tier::Remote,
            },
            Lookup::Failed => {
                let answers: Vec<ResolvedRecord> = Vec::new();
                assert(views(answers@) =~= Seq::<RecordView>::empty());
                Response { code: ResponseCode::ServFail, answers, tier: Tier::Remote }
            },
        }
    }

    /// Takes a query as far as it goes without the network, as the clock
    /// stands at `now` (milliseconds).
    ///
    /// A query that asks for no address is refused and nothing is touched. A
    /// fresh cache entry answers before the local records do, and the local
    /// records before the upstream resolver; local answers are cached on the
    /// way out. Only when both tiers have nothing is the caller told to
    /// forward the query.
    pub fn handle_request_at(&self, cache: &mut Cache, query: &Query, now: i64) -> (step: Step)
        ensures
            (step@, final(cache)@) == first_step(old(cache)@, self.domains@, query@, now as int),
            !query.query_type.is_address() ==> *final(cache) == *old(cache),
    {
        if !query.query_type.asks_address() {
            let answers: Vec<ResolvedRecord> = Vec::new();
            assert(views(answers@) =~= Seq::<RecordView>::empty());
            return Step::Respond(
                Response { code: ResponseCode::NotImp, answers, tier: Tier::Gate },
            );
        }
        if let Some(answers) = Self::get_from_cache(cache, query, now) {
            return Step::Respond(
                Response { code: ResponseCode::NoError, answers, tier: Tier::Cache },
            );
        }
        let local = self.local_request(query);
        Self::add_to_cache(cache, query, local.answers.as_slice(), now);
        if local.answers.len() > 0 {
            return Step::Respond(local);
        }
        Step::Forward
    }

    /// Finishes a forwarded query with the outcome of the upstream lookup, as
    /// the clock stands at `now` (milliseconds): the outcome is cached as the
    /// handler's policy on empty results says, and turned into the response.
    pub fn handle_lookup_at(
        &self,
        cache: &mut Cache,
        query: &Query,
        lookup: Lookup,
        now: i64,
    ) -> (response: Response)
        ensures
            (response@, final(cache)@) == second_step(
                old(cache)@,
                self.empty_answers,
                query@,
                lookup@,
                now as int,
            ),
    {
        let response = Self::remote_request(lookup);
        match self.empty_answers {
            EmptyAnswers::Cached => {
                cache.insert_at(
                    &query.query_type,
                    query.name.as_str(),
                    response.answers.as_slice(),
                    now,
                );
            },
            EmptyAnswers::Skipped => {
                Self::add_to_cache(cache, query, response.answers.as_slice(), now);
            },
        }
        response
    }

    /// `handle_request_at` as the clock stands now.
    pub fn handle_request(&self, cache: &mut Cache, query: &Query) -> (step: Step)
        ensures
            exists|now: i64|
                (step@, final(cache)@) == #[trigger] first_step(
                    old(cache)@,
                    self.domains@,
                    query@,
                    now as int,
                ),
            !query.query_type.is_address() ==> *final(cache) == *old(cache),
    {
        let now: i64 = now_millis();
        self.handle_request_at(cache, query, now)
    }

    /// `handle_lookup_at` as the clock stands now.
    pub fn handle_lookup(&self, cache: &mut Cache, query: &Query, lookup: Lookup) -> (response:
        Response)
        ensures
            exists|now: i64|
                (response@, final(cache)@) == #[trigger] second_step(
                    old(cache)@,
                    self.empty_answers,
                    query@,
                    lookup@,
                    now as int,
                ),
    {
        let now: i64 = now_millis();
        let ghost asked = lookup@;
        let response = self.handle_lookup_at(cache, query, lookup, now);
        assert((response@, cache@) == second_step(
            old(cache)@,
            self.empty_answers,
            query@,
            asked,
            now as int,
        ));
        response
    }
}

} // verus!
