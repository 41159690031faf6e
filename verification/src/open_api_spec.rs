use vstd::prelude::*;
use crate::error_process::ErrorProcess;
use crate::open_api_type::{OpenApiType, TypeV};
use crate::text::{lower_chars, str_eq, to_lower_str};
use crate::utils::{kv_contains, kv_insert, lemma_map_kv_decreases, OrderHashMap, SortKey};

verus! {

broadcast use lemma_map_kv_decreases;

/// Where a parameter of an operation lives.
#[derive(Debug, PartialEq, Eq, Structural, Clone, Copy)]
pub enum ParamIn {
    Path,
    Body,
    Query,
    Header,
}

/// What parsing a parameter-location token yields, after ASCII lowercasing.
pub open spec fn param_in_of(s: Seq<char>) -> Option<ParamIn> {
    let lower = lower_chars(s);
    if lower == "path"@ {
        Some(ParamIn::Path)
    } else if lower == "body"@ {
        Some(ParamIn::Body)
    } else if lower == "query"@ {
        Some(ParamIn::Query)
    } else if lower == "header"@ {
        Some(ParamIn::Header)
    } else {
        None
    }
}

impl ParamIn {
    /// Reads a location token, case-insensitively; an unknown token is
    /// refused, naming it.
    pub fn from_string(name: String) -> (r: Result<ParamIn, ErrorProcess>)
        ensures
            match r {
                Ok(p) => param_in_of(name@) == Some(p),
                Err(e) => param_in_of(name@) is None && e is Message,
            },
    {
        let lower = to_lower_str(name.as_str());
        if str_eq(lower.as_str(), "path") {
            Ok(ParamIn::Path)
        } else if str_eq(lower.as_str(), "body") {
            Ok(ParamIn::Body)
        } else if str_eq(lower.as_str(), "query") {
            Ok(ParamIn::Query)
        } else if str_eq(lower.as_str(), "header") {
            Ok(ParamIn::Header)
        } else {
            let mut m = String::from_str("unknown ParamIn = ");
            m.append(lower.as_str());
            Err(ErrorProcess::Message(m))
        }
    }
}

/// The HTTP methods a path may carry.
#[derive(Debug, PartialEq, Eq, Structural, Clone, Copy)]
pub enum OpenApiMethod {
    Get,
    Post,
    Delete,
    Put,
    Patch,
}

/// What parsing a method token yields, after ASCII lowercasing.
pub open spec fn method_of(s: Seq<char>) -> Option<OpenApiMethod> {
    let lower = lower_chars(s);
    if lower == "get"@ {
        Some(OpenApiMethod::Get)
    } else if lower == "post"@ {
        Some(OpenApiMethod::Post)
    } else if lower == "delete"@ {
        Some(OpenApiMethod::Delete)
    } else if lower == "put"@ {
        Some(OpenApiMethod::Put)
    } else if lower == "patch"@ {
        Some(OpenApiMethod::Patch)
    } else {
        None
    }
}

impl OpenApiMethod {
    /// The canonical token of a method, upper-case: the form the generated
    /// request function quotes.
    pub open spec fn upper_name(self) -> Seq<char> {
        match self {
            OpenApiMethod::Get => "GET"@,
            OpenApiMethod::Post => "POST"@,
            OpenApiMethod::Delete => "DELETE"@,
            OpenApiMethod::Put => "PUT"@,
            OpenApiMethod::Patch => "PATCH"@,
        }
    }

    /// The canonical token of a method, lower-case: the form generated
    /// diagnostics carry.
    pub open spec fn lower_name(self) -> Seq<char> {
        match self {
            OpenApiMethod::Get => "get"@,
            OpenApiMethod::Post => "post"@,
            OpenApiMethod::Delete => "delete"@,
            OpenApiMethod::Put => "put"@,
            OpenApiMethod::Patch => "patch"@,
        }
    }

    /// Reads a method token, case-insensitively; an unknown token is
    /// refused, naming it.
    pub fn from_string(name: String) -> (r: Result<OpenApiMethod, ErrorProcess>)
        ensures
            match r {
                Ok(m) => method_of(name@) == Some(m),
                Err(e) => method_of(name@) is None && e is Message,
            },
    {
        let lower = to_lower_str(name.as_str());
        if str_eq(lower.as_str(), "get") {
            Ok(OpenApiMethod::Get)
        } else if str_eq(lower.as_str(), "post") {
            Ok(OpenApiMethod::Post)
        } else if str_eq(lower.as_str(), "delete") {
            Ok(OpenApiMethod::Delete)
        } else if str_eq(lower.as_str(), "put") {
            Ok(OpenApiMethod::Put)
        } else if str_eq(lower.as_str(), "patch") {
            Ok(OpenApiMethod::Patch)
        } else {
            let mut m = String::from_str("unknown method = ");
            m.append(lower.as_str());
            Err(ErrorProcess::Message(m))
        }
    }

    pub fn to_upper_case(&self) -> (r: String)
        ensures
            r@ == self.upper_name(),
    {
        match self {
            OpenApiMethod::Get => String::from_str("GET"),
            OpenApiMethod::Post => String::from_str("POST"),
            OpenApiMethod::Delete => String::from_str("DELETE"),
            OpenApiMethod::Put => String::from_str("PUT"),
            OpenApiMethod::Patch => String::from_str("PATCH"),
        }
    }

    pub fn to_lower_case(&self) -> (r: String)
        ensures
            r@ == self.lower_name(),
    {
        match self {
            OpenApiMethod::Get => String::from_str("get"),
            OpenApiMethod::Post => String::from_str("post"),
            OpenApiMethod::Delete => String::from_str("delete"),
            OpenApiMethod::Put => String::from_str("put"),
            OpenApiMethod::Patch => String::from_str("patch"),
        }
    }

    /// The position of a method in the fixed emission order.
    pub open spec fn rank_spec(self) -> int {
        match self {
            OpenApiMethod::Get => 0,
            OpenApiMethod::Post => 1,
            OpenApiMethod::Delete => 2,
            OpenApiMethod::Put => 3,
            OpenApiMethod::Patch => 4,
        }
    }

    fn rank(&self) -> (r: u8)
        ensures
            r as int == self.rank_spec(),
    {
        match self {
            OpenApiMethod::Get => 0,
            OpenApiMethod::Post => 1,
            OpenApiMethod::Delete => 2,
            OpenApiMethod::Put => 3,
            OpenApiMethod::Patch => 4,
        }
    }
}

impl SortKey for OpenApiMethod {
    type Repr = int;

    open spec fn repr(&self) -> int {
        self.rank_spec()
    }

    open spec fn lt_repr(a: int, b: int) -> bool {
        a < b
    }

    open spec fn text_of(&self) -> Seq<char> {
        self.lower_name()
    }

    proof fn lemma_strict_order(a: int, b: int, c: int) {
    }

    fn key_lt(&self, other: &Self) -> (r: bool) {
        self.rank() < other.rank()
    }

    fn key_eq(&self, other: &Self) -> (r: bool) {
        proof {
            lemma_method_rank_injective(*self, *other);
        }
        self.rank() == other.rank()
    }


    fn to_text(&self) -> (r: String) {
        self.to_lower_case()
    }
}

/// Both rendered tokens of a method read back as that method: the token
/// the generated code quotes is a method token.
pub proof fn lemma_method_token_round_trip(m: OpenApiMethod)
    ensures
        method_of(m.upper_name()) == Some(m),
        method_of(m.lower_name()) == Some(m),
{
    reveal_strlit("GET");
    reveal_strlit("POST");
    reveal_strlit("DELETE");
    reveal_strlit("PUT");
    reveal_strlit("PATCH");
    reveal_strlit("get");
    reveal_strlit("post");
    reveal_strlit("delete");
    reveal_strlit("put");
    reveal_strlit("patch");
    match m {
        OpenApiMethod::Get => {
            assert(lower_chars("GET"@) =~= "get"@);
            assert(lower_chars("get"@) =~= "get"@);
        },
        OpenApiMethod::Post => {
            assert(lower_chars("POST"@) =~= "post"@);
            assert(lower_chars("post"@) =~= "post"@);
            assert("post"@ != "get"@);
        },
        OpenApiMethod::Delete => {
            assert(lower_chars("DELETE"@) =~= "delete"@);
            assert(lower_chars("delete"@) =~= "delete"@);
        },
        OpenApiMethod::Put => {
            assert(lower_chars("PUT"@) =~= "put"@);
            assert(lower_chars("put"@) =~= "put"@);
            assert("put"@[0] == 'p' && "get"@[0] == 'g');
            assert("put"@ != "get"@);
        },
        OpenApiMethod::Patch => {
            assert(lower_chars("PATCH"@) =~= "patch"@);
            assert(lower_chars("patch"@) =~= "patch"@);
        },
    }
}

/// Two methods with one rank are one method.
pub proof fn lemma_method_rank_injective(a: OpenApiMethod, b: OpenApiMethod)
    ensures
        (a.rank_spec() == b.rank_spec()) == (a == b),
{
}

/// The model of one parameter.
pub struct ParamV {
    pub where_in: ParamIn,
    pub name: Seq<char>,
    pub api_type: TypeV,
}

/// One parameter of an operation: its location, name and type.
#[derive(Debug, PartialEq)]
pub struct ParametersType {
    pub where_in: ParamIn,
    pub name: String,
    pub api_type: OpenApiType,
}

impl View for ParametersType {
    type V = ParamV;

    open spec fn view(&self) -> ParamV {
        ParamV { where_in: self.where_in, name: self.name@, api_type: self.api_type@ }
    }
}

/// The model of a parameter list.
pub open spec fn params_view(v: Seq<ParametersType>) -> Seq<ParamV> {
    Seq::new(
        v.len(),
        |i: int|
            if 0 <= i < v.len() {
                v[i]@
            } else {
                ParamV { where_in: ParamIn::Path, name: Seq::empty(), api_type: TypeV::Unknown }
            },
    )
}

/// The model of the response map.
pub open spec fn responses_view(kv: Seq<(u16, OpenApiType)>) -> Seq<(u16, TypeV)> {
    Seq::new(kv.len(), |i: int| if 0 <= i < kv.len() {
        (kv[i].0, kv[i].1@)
    } else {
        (0u16, TypeV::Unknown)
    })
}

/// The model of one operation.
pub struct HandlerV {
    pub parameters: Seq<ParamV>,
    pub responses: Seq<(u16, TypeV)>,
}

/// One operation of the document: its ordered parameter list and its
/// response map, keyed by status code. Parameter names and response codes
/// are kept unique at insertion.
#[derive(Debug, PartialEq)]
pub struct SpecHandlerType {
    pub parameters: Vec<ParametersType>,
    pub responses: OrderHashMap<u16, OpenApiType>,
}

impl View for SpecHandlerType {
    type V = HandlerV;

    open spec fn view(&self) -> HandlerV {
        HandlerV {
            parameters: params_view(self.parameters@),
            responses: responses_view(self.responses.kv_seq()),
        }
    }
}

/// Every parameter's type has non-empty property names throughout; the
/// emitters demand it.
pub open spec fn params_keys_ok(params: Seq<ParamV>) -> bool
    decreases params,
{
    if params.len() == 0 {
        true
    } else {
        crate::open_api_type::keys_ok(params[0].api_type) && params_keys_ok(params.drop_first())
    }
}

pub proof fn lemma_params_keys_ok_index(params: Seq<ParamV>, i: int)
    requires
        params_keys_ok(params),
        0 <= i < params.len(),
    ensures
        crate::open_api_type::keys_ok(params[i].api_type),
    decreases i,
{
    if i > 0 {
        lemma_params_keys_ok_index(params.drop_first(), i - 1);
        assert(params.drop_first()[i - 1] == params[i]);
    }
}

/// Every response type has non-empty property names throughout.
pub open spec fn resps_keys_ok(resps: Seq<(u16, TypeV)>) -> bool
    decreases resps,
{
    if resps.len() == 0 {
        true
    } else {
        crate::open_api_type::keys_ok(resps[0].1) && resps_keys_ok(resps.drop_first())
    }
}

pub proof fn lemma_resps_keys_ok_index(resps: Seq<(u16, TypeV)>, i: int)
    requires
        resps_keys_ok(resps),
        0 <= i < resps.len(),
    ensures
        crate::open_api_type::keys_ok(resps[i].1),
    decreases i,
{
    if i > 0 {
        lemma_resps_keys_ok_index(resps.drop_first(), i - 1);
        assert(resps.drop_first()[i - 1] == resps[i]);
    }
}

/// Whether a parameter list already holds a name.
pub open spec fn has_param_name(params: Seq<ParamV>, name: Seq<char>) -> bool {
    exists|i: int| 0 <= i < params.len() && params[i].name == name
}

impl SpecHandlerType {
    /// The response map is well-formed.
    pub open spec fn wf(&self) -> bool {
        self.responses.wf()
    }

    pub fn new() -> (r: SpecHandlerType)
        ensures
            r@.parameters.len() == 0,
            r@.responses.len() == 0,
            r.wf(),
    {
        let r = SpecHandlerType { parameters: Vec::new(), responses: OrderHashMap::new() };
        proof {
            assert(params_view(r.parameters@) =~= Seq::<ParamV>::empty());
            assert(responses_view(r.responses.kv_seq()) =~= Seq::<(u16, TypeV)>::empty());
        }
        r
    }

    /// Appends a parameter, its type's `required` flag overwritten by the
    /// containing context's declaration. A name already present, or an
    /// unknown location token, is refused and the model stays unchanged.
    pub fn add_param(
        &mut self,
        name: String,
        where_in: String,
        api_type: OpenApiType,
        required: bool,
    ) -> (r: Result<(), ErrorProcess>)
        requires
            old(self).wf(),
        ensures
            final(self).wf(),
            match r {
                Ok(_) => !has_param_name(old(self)@.parameters, name@) && param_in_of(where_in@)
                    is Some && final(self)@.parameters == old(self)@.parameters.push(
                    ParamV {
                        where_in: param_in_of(where_in@).unwrap(),
                        name: name@,
                        api_type: api_type@.with_req(required),
                    },
                ) && final(self)@.responses == old(self)@.responses,
                Err(e) => (has_param_name(old(self)@.parameters, name@) || param_in_of(where_in@)
                    is None) && *final(self) == *old(self) && e is Message,
            },
    {
        let ghost orig = self.parameters@;
        let mut i: usize = 0;
        while i < self.parameters.len()
            invariant
                *self == *old(self),
                self.wf(),
                orig == self.parameters@,
                0 <= i <= orig.len(),
                forall|q: int| 0 <= q < i ==> orig[q].name@ != name@,
            decreases orig.len() - i,
        {
            if str_eq(self.parameters[i].name.as_str(), name.as_str()) {
                proof {
                    assert(params_view(orig)[i as int].name == name@);
                }
                let mut m = String::from_str("duplicate parameter ");
                m.append(name.as_str());
                return Err(ErrorProcess::Message(m));
            }
            i = i + 1;
        }
        proof {
            assert forall|q: int| 0 <= q < params_view(orig).len() implies params_view(
                orig,
            )[q].name != name@ by {
                assert(params_view(orig)[q].name == orig[q].name@);
            }
        }
        let where_in = match ParamIn::from_string(where_in) {
            Ok(p) => p,
            Err(e) => {
                return Err(e);
            },
        };
        let entry = ParametersType { name, where_in, api_type: api_type.set_required(required) };
        self.parameters.push(entry);
        proof {
            assert(params_view(self.parameters@) =~= params_view(orig).push(
                ParamV {
                    where_in,
                    name: entry.name@,
                    api_type: entry.api_type@,
                },
            ));
        }
        Ok(())
    }

    /// Inserts a response under its status code. A code that is no decimal
    /// `u16`, or one already present, is refused and the model stays
    /// unchanged.
    pub fn add_response(&mut self, code: String, api_type: OpenApiType) -> (r: Result<
        (),
        ErrorProcess,
    >)
        requires
            old(self).wf(),
        ensures
            final(self).wf(),
            match r {
                Ok(_) => {
                    &&& crate::text::parse_u16_spec(code@) is Some
                    &&& !kv_contains(
                        old(self).responses.kv_seq(),
                        crate::text::parse_u16_spec(code@).unwrap() as int,
                    )
                    &&& final(self).responses.kv_seq() == kv_insert(
                        old(self).responses.kv_seq(),
                        crate::text::parse_u16_spec(code@).unwrap(),
                        api_type,
                    )
                    &&& final(self)@.parameters == old(self)@.parameters
                },
                Err(e) => (crate::text::parse_u16_spec(code@) is None || kv_contains(
                    old(self).responses.kv_seq(),
                    crate::text::parse_u16_spec(code@).unwrap() as int,
                )) && *final(self) == *old(self) && e is Message,
            },
    {
        let parsed = crate::text::parse_u16(code.as_str());
        let code_num = match parsed {
            Some(c) => c,
            None => {
                let mut m = String::from_str("invalid response code ");
                m.append(code.as_str());
                return Err(ErrorProcess::Message(m));
            },
        };
        let res = self.responses.expect_insert(code_num, api_type);
        match res {
            Ok(_) => Ok(()),
            Err(e) => Err(e),
        }
    }
}

/// Copies one parameter; the copy has the same model.
pub fn clone_param(p: &ParametersType) -> (r: ParametersType)
    ensures
        r@ == p@,
{
    ParametersType {
        where_in: p.where_in,
        name: p.name.clone(),
        api_type: crate::open_api_type::clone_type(&p.api_type),
    }
}

/// Copies one operation model; the copy has the same model.
#[verifier::loop_isolation(false)]
pub fn clone_handler(h: &SpecHandlerType) -> (r: SpecHandlerType)
    ensures
        r@ == h@,
        r.responses.kv_seq().len() == h.responses.kv_seq().len(),
        forall|i: int|
            0 <= i < r.responses.kv_seq().len() ==> (#[trigger] r.responses.kv_seq()[i]).0
                == h.responses.kv_seq()[i].0,
{
    let mut params: Vec<ParametersType> = Vec::new();
    let mut i: usize = 0;
    while i < h.parameters.len()
        invariant
            0 <= i <= h.parameters@.len(),
            params@.len() == i,
            forall|k: int| 0 <= k < i ==> (#[trigger] params@[k])@ == h.parameters@[k]@,
        decreases h.parameters@.len() - i,
    {
        params.push(clone_param(&h.parameters[i]));
        i = i + 1;
    }
    let entries = h.responses.entries_ref();
    let mut out: Vec<(u16, OpenApiType)> = Vec::new();
    let mut k: usize = 0;
    while k < entries.len()
        invariant
            0 <= k <= entries@.len(),
            entries@ == h.responses.kv_seq(),
            out@.len() == k,
            forall|q: int|
                0 <= q < k ==> (#[trigger] out@[q]).0 == entries@[q].0 && out@[q].1@
                    == entries@[q].1@,
        decreases entries@.len() - k,
    {
        let e = &entries[k];
        out.push((e.0, crate::open_api_type::clone_type(&e.1)));
        k = k + 1;
    }
    let responses = OrderHashMap::from_entries(out);
    let r = SpecHandlerType { parameters: params, responses };
    proof {
        assert(params_view(r.parameters@) =~= params_view(h.parameters@));
        assert(responses_view(r.responses.kv_seq()) =~= responses_view(h.responses.kv_seq()));
    }
    r
}

/// Inserts a response in front of the first larger code.
pub open spec fn resp_insert(resps: Seq<(u16, TypeV)>, c: u16, t: TypeV) -> Seq<(u16, TypeV)>
    decreases resps.len(),
{
    if resps.len() == 0 {
        seq![(c, t)]
    } else if (c as int) < (resps[0].0 as int) {
        seq![(c, t)] + resps
    } else {
        seq![resps[0]] + resp_insert(resps.drop_first(), c, t)
    }
}

/// A status code already bound in a response list.
pub open spec fn resp_present(resps: Seq<(u16, TypeV)>, c: u16) -> bool {
    resps.map_values(|p: (u16, TypeV)| p.0).contains(c)
}

/// Insertion at the response store commutes with taking the model.
pub proof fn lemma_resp_insert_commute(kv: Seq<(u16, OpenApiType)>, c: u16, t: TypeV)
    ensures
        forall|x: OpenApiType|
            x@ == t ==> responses_view(#[trigger] kv_insert(kv, c, x)) == resp_insert(
                responses_view(kv),
                c,
                t,
            ),
    decreases kv.len(),
{
    assert forall|x: OpenApiType| x@ == t implies responses_view(#[trigger] kv_insert(kv, c, x))
        == resp_insert(responses_view(kv), c, t) by {
        if kv.len() == 0 {
            assert(responses_view(kv_insert(kv, c, x)) =~= resp_insert(responses_view(kv), c, t));
        } else {
            assert(responses_view(kv)[0] == (kv[0].0, kv[0].1@));
            if (c as int) < (kv[0].0 as int) {
                assert(responses_view(seq![(c, x)] + kv) =~= resp_insert(
                    responses_view(kv),
                    c,
                    t,
                ));
            } else {
                lemma_resp_insert_commute(kv.drop_first(), c, t);
                assert(responses_view(kv.drop_first()) =~= responses_view(kv).drop_first());
                assert(responses_view(seq![kv[0]] + kv_insert(kv.drop_first(), c, x)) =~= seq![
                    responses_view(kv)[0]] + responses_view(kv_insert(kv.drop_first(), c, x)));
                assert(resp_insert(responses_view(kv), c, t) == seq![responses_view(kv)[0]]
                    + resp_insert(responses_view(kv).drop_first(), c, t));
            }
        }
    }
}

/// Code membership at the response store matches the model.
pub proof fn lemma_resp_contains_commute(kv: Seq<(u16, OpenApiType)>, c: u16)
    ensures
        kv_contains(kv, c as int) == resp_present(responses_view(kv), c),
{
    let keys = responses_view(kv).map_values(|p: (u16, TypeV)| p.0);
    assert(keys.len() == kv.len());
    if kv_contains(kv, c as int) {
        let i = choose|i: int| 0 <= i < kv.len() && kv[i].0.repr() == c as int;
        assert(keys[i] == c);
    }
    if keys.contains(c) {
        let i = choose|i: int| 0 <= i < keys.len() && keys[i] == c;
        assert(kv[i].0.repr() == c as int);
    }
}

/// The model of a path's method map.
pub open spec fn methods_view(kv: Seq<(OpenApiMethod, SpecHandlerType)>) -> Seq<
    (OpenApiMethod, HandlerV),
>
    decreases kv,
{
    Seq::new(
        kv.len(),
        |i: int|
            if 0 <= i < kv.len() {
                (kv[i].0, kv[i].1@)
            } else {
                (
                    OpenApiMethod::Get,
                    HandlerV { parameters: Seq::empty(), responses: Seq::empty() },
                )
            },
    )
}

/// Inserts a handler in front of the first later method.
pub open spec fn m_insert(
    ms: Seq<(OpenApiMethod, HandlerV)>,
    m: OpenApiMethod,
    h: HandlerV,
) -> Seq<(OpenApiMethod, HandlerV)>
    decreases ms.len(),
{
    if ms.len() == 0 {
        seq![(m, h)]
    } else if m.rank_spec() < ms[0].0.rank_spec() {
        seq![(m, h)] + ms
    } else {
        seq![ms[0]] + m_insert(ms.drop_first(), m, h)
    }
}

/// A method already bound in a method map.
pub open spec fn m_present(ms: Seq<(OpenApiMethod, HandlerV)>, m: OpenApiMethod) -> bool {
    ms.map_values(|p: (OpenApiMethod, HandlerV)| p.0).contains(m)
}

/// Insertion at the method store commutes with taking the model.
pub proof fn lemma_m_insert_commute(
    kv: Seq<(OpenApiMethod, SpecHandlerType)>,
    m: OpenApiMethod,
    h: HandlerV,
)
    ensures
        forall|x: SpecHandlerType|
            x@ == h ==> methods_view(#[trigger] kv_insert(kv, m, x)) == m_insert(
                methods_view(kv),
                m,
                h,
            ),
    decreases kv.len(),
{
    assert forall|x: SpecHandlerType| x@ == h implies methods_view(#[trigger] kv_insert(kv, m, x))
        == m_insert(methods_view(kv), m, h) by {
        if kv.len() == 0 {
            assert(methods_view(kv_insert(kv, m, x)) =~= m_insert(methods_view(kv), m, h));
        } else {
            assert(methods_view(kv)[0] == (kv[0].0, kv[0].1@));
            if m.rank_spec() < kv[0].0.rank_spec() {
                assert(methods_view(seq![(m, x)] + kv) =~= m_insert(methods_view(kv), m, h));
            } else {
                lemma_m_insert_commute(kv.drop_first(), m, h);
                assert(methods_view(kv.drop_first()) =~= methods_view(kv).drop_first());
                assert(methods_view(seq![kv[0]] + kv_insert(kv.drop_first(), m, x)) =~= seq![
                    methods_view(kv)[0]] + methods_view(kv_insert(kv.drop_first(), m, x)));
                assert(m_insert(methods_view(kv), m, h) == seq![methods_view(kv)[0]] + m_insert(
                    methods_view(kv).drop_first(),
                    m,
                    h,
                ));
            }
        }
    }
}

/// Method membership at the store matches the model.
pub proof fn lemma_m_contains_commute(kv: Seq<(OpenApiMethod, SpecHandlerType)>, m: OpenApiMethod)
    ensures
        kv_contains(kv, m.rank_spec()) == m_present(methods_view(kv), m),
{
    let keys = methods_view(kv).map_values(|p: (OpenApiMethod, HandlerV)| p.0);
    assert(keys.len() == kv.len());
    if kv_contains(kv, m.rank_spec()) {
        let i = choose|i: int| 0 <= i < kv.len() && kv[i].0.repr() == m.rank_spec();
        lemma_method_rank_injective(kv[i].0, m);
        assert(keys[i] == m);
    }
    if keys.contains(m) {
        let i = choose|i: int| 0 <= i < keys.len() && keys[i] == m;
        assert(kv[i].0.repr() == m.rank_spec());
    }
}

/// The model of the whole document's path map.
pub open spec fn paths_view(
    kv: Seq<(String, OrderHashMap<OpenApiMethod, SpecHandlerType>)>,
) -> Seq<(Seq<char>, Seq<(OpenApiMethod, HandlerV)>)>
    decreases kv,
{
    Seq::new(
        kv.len(),
        |i: int|
            if 0 <= i < kv.len() {
                (kv[i].0@, methods_view(kv[i].1.kv_seq()))
            } else {
                (Seq::empty(), Seq::empty())
            },
    )
}

/// Inserts a path in front of the first later one.
pub open spec fn p_insert(
    ps: Seq<(Seq<char>, Seq<(OpenApiMethod, HandlerV)>)>,
    name: Seq<char>,
    ms: Seq<(OpenApiMethod, HandlerV)>,
) -> Seq<(Seq<char>, Seq<(OpenApiMethod, HandlerV)>)>
    decreases ps.len(),
{
    if ps.len() == 0 {
        seq![(name, ms)]
    } else if crate::text::str_lt(name, ps[0].0) {
        seq![(name, ms)] + ps
    } else {
        seq![ps[0]] + p_insert(ps.drop_first(), name, ms)
    }
}

/// A path already bound in the path map.
pub open spec fn p_present(
    ps: Seq<(Seq<char>, Seq<(OpenApiMethod, HandlerV)>)>,
    name: Seq<char>,
) -> bool {
    ps.map_values(|p: (Seq<char>, Seq<(OpenApiMethod, HandlerV)>)| p.0).contains(name)
}

/// Insertion at the path store commutes with taking the model.
pub proof fn lemma_p_insert_commute(
    kv: Seq<(String, OrderHashMap<OpenApiMethod, SpecHandlerType>)>,
    name: Seq<char>,
    ms: Seq<(OpenApiMethod, HandlerV)>,
)
    ensures
        forall|k: String, x: OrderHashMap<OpenApiMethod, SpecHandlerType>|
            k@ == name && methods_view(x.kv_seq()) == ms ==> paths_view(
                #[trigger] kv_insert(kv, k, x),
            ) == p_insert(paths_view(kv), name, ms),
    decreases kv.len(),
{
    assert forall|k: String, x: OrderHashMap<OpenApiMethod, SpecHandlerType>|
        k@ == name && methods_view(x.kv_seq()) == ms implies paths_view(
        #[trigger] kv_insert(kv, k, x),
    ) == p_insert(paths_view(kv), name, ms) by {
        if kv.len() == 0 {
            assert(paths_view(kv_insert(kv, k, x)) =~= p_insert(paths_view(kv), name, ms));
        } else {
            assert(paths_view(kv)[0] == (kv[0].0@, methods_view(kv[0].1.kv_seq())));
            if crate::text::str_lt(name, kv[0].0@) {
                assert(paths_view(seq![(k, x)] + kv) =~= p_insert(paths_view(kv), name, ms));
            } else {
                lemma_p_insert_commute(kv.drop_first(), name, ms);
                assert(paths_view(kv.drop_first()) =~= paths_view(kv).drop_first());
                assert(paths_view(seq![kv[0]] + kv_insert(kv.drop_first(), k, x)) =~= seq![
                    paths_view(kv)[0]] + paths_view(kv_insert(kv.drop_first(), k, x)));
                assert(p_insert(paths_view(kv), name, ms) == seq![paths_view(kv)[0]] + p_insert(
                    paths_view(kv).drop_first(),
                    name,
                    ms,
                ));
            }
        }
    }
}

/// Path membership at the store matches the model.
pub proof fn lemma_p_contains_commute(
    kv: Seq<(String, OrderHashMap<OpenApiMethod, SpecHandlerType>)>,
    name: Seq<char>,
)
    ensures
        kv_contains(kv, name) == p_present(paths_view(kv), name),
{
    let keys = paths_view(kv).map_values(|p: (Seq<char>, Seq<(OpenApiMethod, HandlerV)>)| p.0);
    assert(keys.len() == kv.len());
    if kv_contains(kv, name) {
        let i = choose|i: int| 0 <= i < kv.len() && kv[i].0.repr() == name;
        assert(keys[i] == name);
    }
    if keys.contains(name) {
        let i = choose|i: int| 0 <= i < keys.len() && keys[i] == name;
        assert(kv[i].0.repr() == name);
    }
}

/// The resolved document: each path's operations, keyed by method.
#[derive(Debug, PartialEq)]
pub struct SpecOpenApi {
    pub paths: OrderHashMap<String, OrderHashMap<OpenApiMethod, SpecHandlerType>>,
}

impl View for SpecOpenApi {
    type V = Seq<(Seq<char>, Seq<(OpenApiMethod, HandlerV)>)>;

    open spec fn view(&self) -> Seq<(Seq<char>, Seq<(OpenApiMethod, HandlerV)>)> {
        paths_view(self.paths.kv_seq())
    }
}

} // verus!
