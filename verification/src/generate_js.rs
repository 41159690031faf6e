pub mod fix_to_camel_case;
pub mod generate_params_type;
pub mod generate_response_io;

use vstd::prelude::*;
use crate::error_process::ErrorProcess;
use crate::generate_js::fix_to_camel_case::{camel_spec, first_up_spec, fix_to_camel_case,
    first_letter_to_up};
use crate::generate_js::generate_params_type::{generate_type_ts, params_def_spec, params_name_spec,
    ts_render};
use crate::generate_js::generate_response_io::{resp_blocks, generate_response_io};
use crate::open_api_spec::{params_keys_ok, resps_keys_ok, HandlerV, OpenApiMethod, ParamIn, ParamV,
    ParametersType, SpecHandlerType};
use crate::open_api_type::{keys_ok, OpenApiType, TypeV};
use crate::text::{lower_char, push_char, split_chars, split_str, spaces_of, to_lower_char,
    u16_to_dec, upper_char, dec_digits};

verus! {

/// The text with its first character mapped to ASCII lower case.
pub open spec fn first_low_spec(s: Seq<char>) -> Seq<char> {
    if s.len() == 0 {
        s
    } else {
        seq![lower_char(s[0])] + s.skip(1)
    }
}

/// Maps the first character of a word to lower case.
pub fn word_first_letter_to_lowercase(word: &str) -> (r: String)
    ensures
        r@ == first_low_spec(word@),
{
    let len: usize = word.unicode_len();
    if len == 0 {
        let r = String::new();
        proof {
            assert(r@ =~= word@);
        }
        return r;
    }
    let mut r = String::new();
    push_char(&mut r, to_lower_char(word.get_char(0)));
    let rest = word.substring_char(1, len);
    r.append(rest);
    proof {
        assert(r@ =~= first_low_spec(word@));
    }
    r
}

/// Maps the first character of a word to upper case.
pub fn word_first_letter_to_upper(word: &str) -> (r: String)
    ensures
        r@ == first_up_spec(word@),
{
    first_letter_to_up(word)
}

/// The pascal-case name for a `_`-separated name: every chunk capitalized,
/// all joined.
pub open spec fn big_camel_spec(s: Seq<char>) -> Seq<char> {
    big_camel_tail(split_chars(s, '_'))
}

/// Capitalized chunks, concatenated.
pub open spec fn big_camel_tail(parts: Seq<Seq<char>>) -> Seq<char>
    decreases parts,
{
    if parts.len() == 0 {
        Seq::empty()
    } else {
        first_up_spec(parts[0]) + big_camel_tail(parts.drop_first())
    }
}

/// Turns a `_`-separated name into its pascal-case form.
#[verifier::loop_isolation(false)]
pub fn to_big_camel_case(name: &str) -> (r: String)
    ensures
        r@ == big_camel_spec(name@),
{
    let parts = split_str(name, '_');
    let ghost pv = parts.deep_view();
    let mut r = String::new();
    let mut i: usize = 0;
    proof {
        assert(pv.skip(0) =~= pv);
        assert(r@ + big_camel_tail(pv) =~= big_camel_tail(pv));
    }
    while i < parts.len()
        invariant
            0 <= i <= parts@.len(),
            pv.len() == parts@.len(),
            big_camel_spec(name@) == r@ + big_camel_tail(pv.skip(i as int)),
        decreases parts@.len() - i,
    {
        proof {
            assert(pv.skip(i as int)[0] == pv[i as int]);
            assert(pv[i as int] == parts@[i as int]@);
            assert(pv.skip(i as int).drop_first() =~= pv.skip(i + 1));
        }
        let ghost r0 = r@;
        let up = first_letter_to_up(parts[i].as_str());
        r.append(up.as_str());
        proof {
            assert(big_camel_tail(pv.skip(i as int)) == first_up_spec(pv[i as int])
                + big_camel_tail(pv.skip(i + 1)));
            assert(r0 + (first_up_spec(pv[i as int]) + big_camel_tail(pv.skip(i + 1))) =~= (r0
                + first_up_spec(pv[i as int])) + big_camel_tail(pv.skip(i + 1)));
        }
        i = i + 1;
    }
    proof {
        assert(pv.skip(i as int).len() == 0);
        assert(big_camel_tail(pv.skip(i as int)) =~= Seq::<char>::empty());
        assert(r@ + Seq::<char>::empty() =~= r@);
    }
    r
}

/// Whether any parameter travels in the query string.
pub open spec fn has_query(params: Seq<ParamV>) -> bool
    decreases params,
{
    if params.len() == 0 {
        false
    } else {
        params[0].where_in is Query || has_query(params.drop_first())
    }
}

/// Whether any parameter travels in a header.
pub open spec fn has_header(params: Seq<ParamV>) -> bool
    decreases params,
{
    if params.len() == 0 {
        false
    } else {
        params[0].where_in is Header || has_header(params.drop_first())
    }
}

/// The import line for the query-string helper, when a query parameter
/// exists.
pub open spec fn import_qs_spec(params: Seq<ParamV>) -> Seq<char> {
    if has_query(params) {
        "import qs from 'query-string';"@
    } else {
        ""@
    }
}

proof fn lemma_has_query_step(params: Seq<ParamV>, i: int)
    requires
        0 <= i < params.len(),
    ensures
        has_query(params.skip(i)) == (params[i].where_in is Query || has_query(params.skip(i + 1))),
        has_header(params.skip(i)) == (params[i].where_in is Header || has_header(
            params.skip(i + 1),
        )),
{
    assert(params.skip(i)[0] == params[i]);
    assert(params.skip(i).drop_first() =~= params.skip(i + 1));
}

/// Tests whether any parameter travels in the query string.
#[verifier::loop_isolation(false)]
fn check_has_query(parameters: &Vec<ParametersType>) -> (r: bool)
    ensures
        r == has_query(crate::open_api_spec::params_view(parameters@)),
{
    let ghost pv = crate::open_api_spec::params_view(parameters@);
    let mut i: usize = 0;
    proof {
        assert(pv.skip(0) =~= pv);
    }
    while i < parameters.len()
        invariant
            0 <= i <= parameters@.len(),
            pv.len() == parameters@.len(),
            has_query(pv) == has_query(pv.skip(i as int)),
        decreases parameters@.len() - i,
    {
        proof {
            lemma_has_query_step(pv, i as int);
            assert(pv[i as int] == parameters@[i as int]@);
        }
        let is_query = match parameters[i].where_in {
            ParamIn::Query => true,
            _ => false,
        };
        if is_query {
            return true;
        }
        i = i + 1;
    }
    proof {
        assert(pv.skip(i as int).len() == 0);
    }
    false
}

/// Tests whether any parameter travels in a header.
#[verifier::loop_isolation(false)]
fn check_has_header(parameters: &Vec<ParametersType>) -> (r: bool)
    ensures
        r == has_header(crate::open_api_spec::params_view(parameters@)),
{
    let ghost pv = crate::open_api_spec::params_view(parameters@);
    let mut i: usize = 0;
    proof {
        assert(pv.skip(0) =~= pv);
    }
    while i < parameters.len()
        invariant
            0 <= i <= parameters@.len(),
            pv.len() == parameters@.len(),
            has_header(pv) == has_header(pv.skip(i as int)),
        decreases parameters@.len() - i,
    {
        proof {
            lemma_has_query_step(pv, i as int);
            assert(pv[i as int] == parameters@[i as int]@);
        }
        let is_header = match parameters[i].where_in {
            ParamIn::Header => true,
            _ => false,
        };
        if is_header {
            return true;
        }
        i = i + 1;
    }
    proof {
        assert(pv.skip(i as int).len() == 0);
    }
    false
}

/// The import line for the query-string helper, when a query parameter
/// exists.
pub fn add_import_query_string(spec: &SpecHandlerType) -> (r: &'static str)
    ensures
        r@ == import_qs_spec(spec@.parameters),
{
    if check_has_query(&spec.parameters) {
        "import qs from 'query-string';"
    } else {
        ""
    }
}

/// The extra-headers line for one header parameter: the name, quoted when
/// it carries a dash, and its static type.
pub open spec fn hdr_line(p: ParamV) -> Seq<char> {
    if p.name.contains('-') {
        seq!['\n'] + spaces_of(4) + seq!['\''] + p.name + "': "@ + ts_render(p.api_type, 4).0
            + seq![',']
    } else {
        seq!['\n'] + spaces_of(4) + p.name + ": "@ + ts_render(p.api_type, 4).0 + seq![',']
    }
}

/// The lines of every header parameter.
pub open spec fn hdr_lines(params: Seq<ParamV>) -> Seq<char>
    decreases params,
{
    if params.len() == 0 {
        Seq::empty()
    } else {
        (if params[0].where_in is Header {
            hdr_line(params[0])
        } else {
            Seq::<char>::empty()
        }) + hdr_lines(params.drop_first())
    }
}

/// The extra-headers declaration: the declared header parameters when any
/// exist, an open string map otherwise.
pub open spec fn headers_type_spec(params: Seq<ParamV>) -> Seq<char> {
    if has_header(params) {
        "type ExtraHeadersType = {"@ + hdr_lines(params) + "\n};\n"@
    } else {
        "type ExtraHeadersType = Record<string, string>"@
    }
}

/// Emits the extra-headers declaration of an operation.
#[verifier::loop_isolation(false)]
pub fn generate_headers_type(parameters: &Vec<ParametersType>) -> (r: String)
    requires
        params_keys_ok(crate::open_api_spec::params_view(parameters@)),
    ensures
        r@ == headers_type_spec(crate::open_api_spec::params_view(parameters@)),
{
    let ghost pv = crate::open_api_spec::params_view(parameters@);
    if !check_has_header(parameters) {
        return String::from_str("type ExtraHeadersType = Record<string, string>");
    }
    let mut body = String::new();
    let mut i: usize = 0;
    proof {
        assert(pv.skip(0) =~= pv);
    }
    while i < parameters.len()
        invariant
            0 <= i <= parameters@.len(),
            pv.len() == parameters@.len(),
            hdr_lines(pv) == body@ + hdr_lines(pv.skip(i as int)),
        decreases parameters@.len() - i,
    {
        proof {
            assert(pv.skip(i as int)[0] == pv[i as int]);
            assert(pv[i as int] == parameters@[i as int]@);
            assert(pv.skip(i as int).drop_first() =~= pv.skip(i + 1));
            crate::open_api_spec::lemma_params_keys_ok_index(pv, i as int);
        }
        let p = &parameters[i];
        let is_header = match p.where_in {
            ParamIn::Header => true,
            _ => false,
        };
        if is_header {
            let ghost b0 = body@;
            push_char(&mut body, '\n');
            let ind = crate::generate_js::generate_params_type::generate_ident(4);
            body.append(ind.as_str());
            let dashed = crate::text::contains_char(p.name.as_str(), '-');
            if dashed {
                push_char(&mut body, '\'');
                body.append(p.name.as_str());
                body.append("': ");
            } else {
                body.append(p.name.as_str());
                body.append(": ");
            }
            let vt = generate_type_ts(4, &p.api_type);
            body.append(vt.as_str());
            push_char(&mut body, ',');
            proof {
                assert(body@ =~= b0 + hdr_line(pv[i as int]));
                assert(hdr_lines(pv.skip(i as int)) == hdr_line(pv[i as int]) + hdr_lines(
                    pv.skip(i + 1),
                ));
                assert(b0 + (hdr_line(pv[i as int]) + hdr_lines(pv.skip(i + 1))) =~= (b0
                    + hdr_line(pv[i as int])) + hdr_lines(pv.skip(i + 1)));
            }
        } else {
            proof {
                assert(hdr_lines(pv.skip(i as int)) == Seq::<char>::empty() + hdr_lines(
                    pv.skip(i + 1),
                ));
                assert(Seq::<char>::empty() + hdr_lines(pv.skip(i + 1)) =~= hdr_lines(
                    pv.skip(i + 1),
                ));
            }
        }
        i = i + 1;
    }
    proof {
        assert(pv.skip(i as int).len() == 0);
        assert(hdr_lines(pv.skip(i as int)) =~= Seq::<char>::empty());
        assert(body@ + Seq::<char>::empty() =~= body@);
    }
    let mut s = String::from_str("type ExtraHeadersType = {");
    s.append(body.as_str());
    s.append("\n};\n");
    proof {
        assert(s@ =~= headers_type_spec(pv));
    }
    s
}

/// How the request function binds the extra headers: demanded when header
/// parameters exist, optional otherwise.
pub open spec fn headers_param_spec(params: Seq<ParamV>) -> Seq<char> {
    if has_header(params) {
        "extraHeaders: ExtraHeadersType"@
    } else {
        "extraHeaders?: ExtraHeadersType"@
    }
}

pub fn generate_headers_param(parameters: &Vec<ParametersType>) -> (r: String)
    ensures
        r@ == headers_param_spec(crate::open_api_spec::params_view(parameters@)),
{
    if check_has_header(parameters) {
        String::from_str("extraHeaders: ExtraHeadersType")
    } else {
        String::from_str("extraHeaders?: ExtraHeadersType")
    }
}

/// A URL segment of the form `{name}` becomes an access into the parameter
/// record under the camel-case name; every other segment stays.
pub open spec fn url_item_spec(c: Seq<char>) -> Seq<char> {
    if c.len() >= 2 && c[0] == '{' && c[c.len() - 1] == '}' {
        "${params."@ + camel_spec(c.subrange(1, c.len() - 1)) + seq!['}']
    } else {
        c
    }
}

/// Substitutes one URL segment.
pub fn generate_url_item(url_chunk: &str) -> (r: String)
    ensures
        r@ == url_item_spec(url_chunk@),
{
    let len: usize = url_chunk.unicode_len();
    if len >= 2 {
        if url_chunk.get_char(0) == '{' {
            if url_chunk.get_char(len - 1) == '}' {
                let inner = url_chunk.substring_char(1, len - 1);
                let cc = fix_to_camel_case(&String::from_str(inner));
                let mut s = String::from_str("${params.");
                s.append(cc.as_str());
                push_char(&mut s, '}');
                proof {
                    assert(s@ =~= url_item_spec(url_chunk@));
                }
                return s;
            }
        }
    }
    String::from_str(url_chunk)
}

/// One query entry: the raw name bound to the camel-case record access.
pub open spec fn query_chunk(name: Seq<char>) -> Seq<char> {
    seq!['\''] + name + "': params."@ + camel_spec(name)
}

/// The query names joined by commas.
pub open spec fn query_chunks(names: Seq<Seq<char>>) -> Seq<char>
    decreases names, 0int,
{
    if names.len() == 0 {
        Seq::empty()
    } else {
        query_chunk(names[0]) + query_chunks_tail(names.drop_first())
    }
}

pub open spec fn query_chunks_tail(names: Seq<Seq<char>>) -> Seq<char>
    decreases names, 1int,
{
    if names.len() == 0 {
        Seq::empty()
    } else {
        ", "@ + query_chunk(names[0]) + query_chunks_tail(names.drop_first())
    }
}

/// The serialized query string expression over the query parameter names.
pub open spec fn url_query_spec(names: Seq<Seq<char>>) -> Seq<char> {
    "${qs.stringify({ "@ + query_chunks(names) + " }, { skipNull: true })}"@
}

/// Builds the query-string expression for the query parameter names.
#[verifier::loop_isolation(false)]
pub fn generate_url_query(query_params: Vec<&String>) -> (r: String)
    ensures
        r@ == url_query_spec(query_params.deep_view()),
{
    let ghost nv = query_params.deep_view();
    let mut chunks = String::new();
    let mut i: usize = 0;
    proof {
        assert(nv.skip(0) =~= nv);
    }
    while i < query_params.len()
        invariant
            0 <= i <= query_params@.len(),
            nv.len() == query_params@.len(),
            i == 0 ==> chunks@ == Seq::<char>::empty() && query_chunks(nv) == chunks@
                + query_chunks(nv.skip(0)),
            i > 0 ==> query_chunks(nv) == chunks@ + query_chunks_tail(nv.skip(i as int)),
        decreases query_params@.len() - i,
    {
        proof {
            assert(nv.skip(i as int)[0] == nv[i as int]);
            assert(nv[i as int] == query_params@[i as int].deep_view());
            assert(nv.skip(i as int).drop_first() =~= nv.skip(i + 1));
        }
        let ghost c0 = chunks@;
        if i > 0 {
            chunks.append(", ");
        }
        push_char(&mut chunks, '\'');
        chunks.append(query_params[i].as_str());
        chunks.append("': params.");
        let cc = fix_to_camel_case(query_params[i]);
        chunks.append(cc.as_str());
        proof {
            let q = query_chunk(nv[i as int]);
            if i == 0 {
                assert(chunks@ =~= q);
                assert(query_chunks(nv) == q + query_chunks_tail(nv.skip(1)));
            } else {
                assert(chunks@ =~= c0 + (", "@ + q));
                assert(query_chunks_tail(nv.skip(i as int)) == ", "@ + q + query_chunks_tail(
                    nv.skip(i + 1),
                ));
                assert(c0 + (", "@ + q + query_chunks_tail(nv.skip(i + 1))) =~= (c0 + (", "@ + q))
                    + query_chunks_tail(nv.skip(i + 1)));
            }
        }
        i = i + 1;
    }
    proof {
        if nv.len() == 0 {
            assert(query_chunks(nv) =~= Seq::<char>::empty());
            assert(chunks@ =~= query_chunks(nv));
        } else {
            assert(nv.skip(i as int).len() == 0);
            assert(query_chunks_tail(nv.skip(i as int)) =~= Seq::<char>::empty());
            assert(chunks@ + Seq::<char>::empty() =~= chunks@);
        }
    }
    let mut s = String::from_str("${qs.stringify({ ");
    s.append(chunks.as_str());
    s.append(" }, { skipNull: true })}");
    proof {
        assert(s@ =~= url_query_spec(nv));
    }
    s
}

/// The substituted URL segments, joined back with slashes.
pub open spec fn url_base_spec(url: Seq<char>) -> Seq<char> {
    url_base_parts(split_chars(url, '/'))
}

pub open spec fn url_base_parts(parts: Seq<Seq<char>>) -> Seq<char>
    decreases parts, 0int,
{
    if parts.len() == 0 {
        Seq::empty()
    } else {
        url_item_spec(parts[0]) + url_base_tail(parts.drop_first())
    }
}

pub open spec fn url_base_tail(parts: Seq<Seq<char>>) -> Seq<char>
    decreases parts, 1int,
{
    if parts.len() == 0 {
        Seq::empty()
    } else {
        seq!['/'] + url_item_spec(parts[0]) + url_base_tail(parts.drop_first())
    }
}

/// The names of the query parameters, in declaration order.
pub open spec fn query_names(params: Seq<ParamV>) -> Seq<Seq<char>>
    decreases params,
{
    if params.len() == 0 {
        Seq::empty()
    } else {
        (if params[0].where_in is Query {
            seq![params[0].name]
        } else {
            Seq::<Seq<char>>::empty()
        }) + query_names(params.drop_first())
    }
}

/// The rendered request URL: the template with every `{name}` segment
/// substituted, and the query expression behind a `?` when any query
/// parameter exists.
pub open spec fn url_render_spec(url: Seq<char>, params: Seq<ParamV>) -> Seq<char> {
    if query_names(params).len() > 0 {
        url_base_spec(url) + seq!['?'] + url_query_spec(query_names(params))
    } else {
        url_base_spec(url)
    }
}

/// Builds the request URL of an operation from its template and its query
/// parameters.
#[verifier::loop_isolation(false)]
pub fn generate_url(url: String, spec: &SpecHandlerType) -> (r: String)
    ensures
        r@ == url_render_spec(url@, spec@.parameters),
{
    let parts = split_str(url.as_str(), '/');
    let ghost tv = parts.deep_view();
    let mut base = String::new();
    let mut i: usize = 0;
    proof {
        assert(tv.skip(0) =~= tv);
    }
    while i < parts.len()
        invariant
            0 <= i <= parts@.len(),
            tv.len() == parts@.len(),
            i == 0 ==> base@ == Seq::<char>::empty() && url_base_parts(tv) == base@
                + url_base_parts(tv.skip(0)),
            i > 0 ==> url_base_parts(tv) == base@ + url_base_tail(tv.skip(i as int)),
        decreases parts@.len() - i,
    {
        proof {
            assert(tv.skip(i as int)[0] == tv[i as int]);
            assert(tv[i as int] == parts@[i as int]@);
            assert(tv.skip(i as int).drop_first() =~= tv.skip(i + 1));
        }
        let ghost b0 = base@;
        if i > 0 {
            push_char(&mut base, '/');
        }
        let item = generate_url_item(parts[i].as_str());
        base.append(item.as_str());
        proof {
            let q = url_item_spec(tv[i as int]);
            if i == 0 {
                assert(base@ =~= q);
                assert(url_base_parts(tv) == q + url_base_tail(tv.skip(1)));
            } else {
                assert(base@ =~= b0 + (seq!['/'] + q));
                assert(url_base_tail(tv.skip(i as int)) == seq!['/'] + q + url_base_tail(
                    tv.skip(i + 1),
                ));
                assert(b0 + (seq!['/'] + q + url_base_tail(tv.skip(i + 1))) =~= (b0 + (seq!['/']
                    + q)) + url_base_tail(tv.skip(i + 1)));
            }
        }
        i = i + 1;
    }
    proof {
        crate::utils::lemma_split_chars_nonempty(url@, '/');
        assert(tv.skip(i as int).len() == 0);
        assert(url_base_tail(tv.skip(i as int)) =~= Seq::<char>::empty());
        assert(base@ + Seq::<char>::empty() =~= base@);
        assert(base@ == url_base_spec(url@));
    }
    let ghost pv = spec@.parameters;
    let mut query_params: Vec<&String> = Vec::new();
    let mut k: usize = 0;
    proof {
        assert(pv.skip(0) =~= pv);
        assert(query_params.deep_view() =~= Seq::<Seq<char>>::empty());
    }
    while k < spec.parameters.len()
        invariant
            0 <= k <= spec.parameters@.len(),
            pv == spec@.parameters,
            pv.len() == spec.parameters@.len(),
            query_names(pv) == query_params.deep_view() + query_names(pv.skip(k as int)),
        decreases spec.parameters@.len() - k,
    {
        proof {
            assert(pv.skip(k as int)[0] == pv[k as int]);
            assert(pv[k as int] == spec.parameters@[k as int]@);
            assert(pv.skip(k as int).drop_first() =~= pv.skip(k + 1));
        }
        let p = &spec.parameters[k];
        let is_query = match p.where_in {
            ParamIn::Query => true,
            _ => false,
        };
        if is_query {
            let ghost prev = query_params;
            query_params.push(&p.name);
            proof {
                assert forall|q: int| 0 <= q < query_params@.len() implies #[trigger] query_params.deep_view()[q]
                    == prev.deep_view().push(pv[k as int].name)[q] by {
                    assert(query_params.deep_view()[q] == query_params@[q].deep_view());
                    if q < prev@.len() {
                        assert(query_params@[q] == prev@[q]);
                        assert(prev.deep_view()[q] == prev@[q].deep_view());
                    }
                }
                assert(query_params.deep_view() =~= prev.deep_view().push(pv[k as int].name));
                assert(query_names(pv.skip(k as int)) == seq![pv[k as int].name] + query_names(
                    pv.skip(k + 1),
                ));
                assert(prev.deep_view() + (seq![pv[k as int].name] + query_names(pv.skip(k + 1)))
                    =~= (prev.deep_view() + seq![pv[k as int].name]) + query_names(pv.skip(k + 1)));
                assert(prev.deep_view() + seq![pv[k as int].name] =~= prev.deep_view().push(
                    pv[k as int].name,
                ));
            }
        } else {
            proof {
                assert(query_names(pv.skip(k as int)) == Seq::<Seq<char>>::empty() + query_names(
                    pv.skip(k + 1),
                ));
                assert(Seq::<Seq<char>>::empty() + query_names(pv.skip(k + 1)) =~= query_names(
                    pv.skip(k + 1),
                ));
            }
        }
        k = k + 1;
    }
    proof {
        assert(pv.skip(k as int).len() == 0);
        assert(query_names(pv.skip(k as int)) =~= Seq::<Seq<char>>::empty());
        assert(query_params.deep_view() + Seq::<Seq<char>>::empty() =~= query_params.deep_view());
    }
    if query_params.len() > 0 {
        let q = generate_url_query(query_params);
        let mut s = base;
        push_char(&mut s, '?');
        s.append(q.as_str());
        proof {
            assert(s@ =~= url_render_spec(url@, pv));
        }
        s
    } else {
        base
    }
}

/// The request payload: the first body parameter's record access, or
/// nothing.
pub open spec fn body_spec(params: Seq<ParamV>) -> Seq<char>
    decreases params,
{
    if params.len() == 0 {
        "undefined"@
    } else if params[0].where_in is Body {
        "params."@ + params[0].name
    } else {
        body_spec(params.drop_first())
    }
}

/// The request payload expression of an operation.
#[verifier::loop_isolation(false)]
pub fn get_body(spec: &SpecHandlerType) -> (r: String)
    ensures
        r@ == body_spec(spec@.parameters),
{
    let ghost pv = spec@.parameters;
    let mut i: usize = 0;
    proof {
        assert(pv.skip(0) =~= pv);
    }
    while i < spec.parameters.len()
        invariant
            0 <= i <= spec.parameters@.len(),
            pv == spec@.parameters,
            pv.len() == spec.parameters@.len(),
            body_spec(pv) == body_spec(pv.skip(i as int)),
        decreases spec.parameters@.len() - i,
    {
        proof {
            assert(pv.skip(i as int)[0] == pv[i as int]);
            assert(pv[i as int] == spec.parameters@[i as int]@);
            assert(pv.skip(i as int).drop_first() =~= pv.skip(i + 1));
        }
        let p = &spec.parameters[i];
        let is_body = match p.where_in {
            ParamIn::Body => true,
            _ => false,
        };
        if is_body {
            let mut s = String::from_str("params.");
            s.append(p.name.as_str());
            return s;
        }
        i = i + 1;
    }
    proof {
        assert(pv.skip(i as int).len() == 0);
    }
    String::from_str("undefined")
}

/// The quoted method token of an operation.
pub open spec fn method_token_spec(method: OpenApiMethod) -> Seq<char> {
    seq!['\''] + method.upper_name() + seq!['\'']
}

pub fn get_method(method: &OpenApiMethod) -> (r: String)
    ensures
        r@ == method_token_spec(*method),
{
    let up = method.to_upper_case();
    let mut s = String::new();
    push_char(&mut s, '\'');
    s.append(up.as_str());
    push_char(&mut s, '\'');
    proof {
        assert(s@ =~= method_token_spec(*method));
    }
    s
}

/// The response-type alternative for one status code.
pub open spec fn gr_param_chunk(code: u16) -> Seq<char> {
    "{\n    status: "@ + dec_digits(code as nat) + ",\n    body: Response"@ + dec_digits(
        code as nat,
    ) + "Type,\n}"@
}

/// The dispatch branch for one status code.
pub open spec fn gr_if_chunk(code: u16) -> Seq<char> {
    "\n    if (status === "@ + dec_digits(code as nat) + ") {\n        return {\n            status: "@
        + dec_digits(code as nat) + ",\n            body: decodeResponse"@ + dec_digits(
        code as nat,
    ) + "(bodyParsed.json)\n        };\n    }"@
}

/// The response-type alternatives of every declared code, union-joined.
pub open spec fn gr_params(resps: Seq<(u16, TypeV)>) -> Seq<char>
    decreases resps, 0int,
{
    if resps.len() == 0 {
        Seq::empty()
    } else {
        gr_param_chunk(resps[0].0) + gr_params_tail(resps.drop_first())
    }
}

pub open spec fn gr_params_tail(resps: Seq<(u16, TypeV)>) -> Seq<char>
    decreases resps, 1int,
{
    if resps.len() == 0 {
        Seq::empty()
    } else {
        " | "@ + gr_param_chunk(resps[0].0) + gr_params_tail(resps.drop_first())
    }
}

/// The dispatch branches of every declared code.
pub open spec fn gr_ifs(resps: Seq<(u16, TypeV)>) -> Seq<char>
    decreases resps, 0int,
{
    if resps.len() == 0 {
        Seq::empty()
    } else {
        gr_if_chunk(resps[0].0) + gr_ifs_tail(resps.drop_first())
    }
}

pub open spec fn gr_ifs_tail(resps: Seq<(u16, TypeV)>) -> Seq<char>
    decreases resps, 1int,
{
    if resps.len() == 0 {
        Seq::empty()
    } else {
        "\n\n"@ + gr_if_chunk(resps[0].0) + gr_ifs_tail(resps.drop_first())
    }
}

/// Emits, over the declared response codes in order, the union of tagged
/// response types and the status dispatch branches.
#[verifier::loop_isolation(false)]
pub fn generate_generic_response(responses: &crate::utils::OrderHashMap<u16, OpenApiType>) -> (r: (
    String,
    String,
))
    ensures
        r.0@ == gr_params(crate::open_api_spec::responses_view(responses.kv_seq())),
        r.1@ == gr_ifs(crate::open_api_spec::responses_view(responses.kv_seq())),
{
    let entries = responses.get_sorted();
    let ghost rv = crate::open_api_spec::responses_view(responses.kv_seq());
    let mut ps = String::new();
    let mut fs = String::new();
    let mut i: usize = 0;
    proof {
        assert(rv.skip(0) =~= rv);
        assert(rv.len() == responses.kv_seq().len());
    }
    while i < entries.len()
        invariant
            entries@.len() == responses.kv_seq().len(),
            forall|q: int|
                0 <= q < entries@.len() ==> *(#[trigger] entries@[q]).0 == responses.kv_seq()[q].0
                    && *entries@[q].1 == responses.kv_seq()[q].1,
            0 <= i <= entries@.len(),
            i == 0 ==> ps@ == Seq::<char>::empty() && fs@ == Seq::<char>::empty() && gr_params(rv)
                == ps@ + gr_params(rv.skip(0)) && gr_ifs(rv) == fs@ + gr_ifs(rv.skip(0)),
            i > 0 ==> gr_params(rv) == ps@ + gr_params_tail(rv.skip(i as int)) && gr_ifs(rv) == fs@
                + gr_ifs_tail(rv.skip(i as int)),
        decreases entries@.len() - i,
    {
        proof {
            assert(rv.skip(i as int)[0] == rv[i as int]);
            assert(rv[i as int] == (responses.kv_seq()[i as int].0,
            responses.kv_seq()[i as int].1@));
            assert(rv.skip(i as int).drop_first() =~= rv.skip(i + 1));
        }
        let code = *entries[i].0;
        let c = u16_to_dec(code);
        let ghost p0 = ps@;
        let ghost f0 = fs@;
        if i > 0 {
            ps.append(" | ");
            fs.append("\n\n");
        }
        ps.append("{\n    status: ");
        ps.append(c.as_str());
        ps.append(",\n    body: Response");
        ps.append(c.as_str());
        ps.append("Type,\n}");
        fs.append("\n    if (status === ");
        fs.append(c.as_str());
        fs.append(") {\n        return {\n            status: ");
        fs.append(c.as_str());
        fs.append(",\n            body: decodeResponse");
        fs.append(c.as_str());
        fs.append("(bodyParsed.json)\n        };\n    }");
        proof {
            let pc = gr_param_chunk(rv[i as int].0);
            let fc = gr_if_chunk(rv[i as int].0);
            if i == 0 {
                assert(ps@ =~= pc);
                assert(fs@ =~= fc);
                assert(gr_params(rv) == pc + gr_params_tail(rv.skip(1)));
                assert(gr_ifs(rv) == fc + gr_ifs_tail(rv.skip(1)));
            } else {
                assert(ps@ =~= p0 + (" | "@ + pc));
                assert(fs@ =~= f0 + ("\n\n"@ + fc));
                assert(gr_params_tail(rv.skip(i as int)) == " | "@ + pc + gr_params_tail(
                    rv.skip(i + 1),
                ));
                assert(gr_ifs_tail(rv.skip(i as int)) == "\n\n"@ + fc + gr_ifs_tail(
                    rv.skip(i + 1),
                ));
                assert(p0 + (" | "@ + pc + gr_params_tail(rv.skip(i + 1))) =~= (p0 + (" | "@ + pc))
                    + gr_params_tail(rv.skip(i + 1)));
                assert(f0 + ("\n\n"@ + fc + gr_ifs_tail(rv.skip(i + 1))) =~= (f0 + ("\n\n"@ + fc))
                    + gr_ifs_tail(rv.skip(i + 1)));
            }
        }
        i = i + 1;
    }
    proof {
        if rv.len() == 0 {
            assert(gr_params(rv) =~= Seq::<char>::empty());
            assert(gr_ifs(rv) =~= Seq::<char>::empty());
            assert(ps@ =~= gr_params(rv));
            assert(fs@ =~= gr_ifs(rv));
        } else {
            assert(rv.skip(i as int).len() == 0);
            assert(gr_params_tail(rv.skip(i as int)) =~= Seq::<char>::empty());
            assert(gr_ifs_tail(rv.skip(i as int)) =~= Seq::<char>::empty());
            assert(ps@ + Seq::<char>::empty() =~= ps@);
            assert(fs@ + Seq::<char>::empty() =~= fs@);
        }
    }
    (ps, fs)
}

/// The whole generated module for one operation: imports, the parameter
/// record, the per-code validators and decoders, the extra-headers
/// declaration, the raw request function, the aliased response types, and
/// the typed request function with its status dispatch.
pub open spec fn generate_js_spec(
    name: Seq<char>,
    url: Seq<char>,
    method: OpenApiMethod,
    h: HandlerV,
) -> Seq<char> {
    let big = big_camel_spec(name);
    let small = first_low_spec(big);
    "//The contents of this file have been generated automatically. Do not edit this file.\n\nimport * as t from 'io-ts';\nimport { isRight } from 'fp-ts/lib/Either';\nimport { fetchGeneralRaw, FetchGeneralRawResponseType } from 'src_common/common/fetch';\nimport { ApiTimeLog } from 'src_common/server/webDriver/logFormat';\n"@
        + import_qs_spec(h.parameters) + "\n\n\n"@ + params_def_spec(h.parameters) + "\n\n\n"@
        + resp_blocks(h.responses, url, method.lower_name()) + "\n\n\n"@ + headers_type_spec(
        h.parameters,
    ) + "\n\n\n/**\n * @deprecated - Please use this method \""@ + small
        + "Request\"\n */\nexport const "@ + name
        + " = async (api_url: string, api_timeout: number, backendToken: string, "@
        + params_name_spec(h.parameters) + ", "@ + headers_param_spec(h.parameters)
        + "): Promise<FetchGeneralRawResponseType> => {\n    const url = `${api_url}"@
        + url_render_spec(url, h.parameters) + "`;\n    const method = "@ + method_token_spec(
        method,
    )
        + ";\n    const paramsFetch = {\n        url,\n        body: "@ + body_spec(h.parameters)
        + ",\n        backendToken,\n        timeout: api_timeout,\n        extraHeaders,\n    };\n\n    const apiTime = ApiTimeLog.createWithProcessEnv(method, url);\n    const response = await fetchGeneralRaw(method, paramsFetch);\n    apiTime.show(response.status);\n    return response;\n};\n\n\nexport type "@
        + big + "ParamsType = ParamsType;\n\nexport type "@ + big + "ResponseType = "@ + gr_params(
        h.responses,
    ) + ";\n\nexport type "@ + big + "Response200Type = Response200Type;\n\nexport const "@ + small
        + "Request = async (api_url: string, api_timeout: number, backendToken: string, "@
        + params_name_spec(h.parameters) + ", "@ + headers_param_spec(h.parameters)
        + "): Promise<"@ + big + "ResponseType> => {\n    const response = await "@ + name
        + "(api_url, api_timeout, backendToken, params, extraHeaders);\n    const { status, body } = response;\n\n    const parse = (body: string): {\n        type: 'json',\n        json: unknown,\n    } | {\n        type: 'text'\n    } => {\n        try {\n            return {\n                type: 'json',\n                json: JSON.parse(body)\n            };\n        } catch (_err) {\n            return {\n                type: 'json',\n                json: {},\n            };\n        }\n    };\n    const bodyParsed = parse(body);\n\n    if (bodyParsed.type === 'text') {\n        throw Error(`Http status ${status} - json was expected`);\n    }\n\n    "@
        + gr_ifs(h.responses) + "\n\n    throw new Error(`"@ + small
        + "Request - unhandled response ${response.status}`);\n};\n\n"@
}

/// Emits the whole generated module for one operation.
pub fn generate_js(
    name_in_file: String,
    url: String,
    method: OpenApiMethod,
    handler: &SpecHandlerType,
) -> (r: Result<String, ErrorProcess>)
    requires
        params_keys_ok(handler@.parameters),
        resps_keys_ok(handler@.responses),
    ensures
        match r {
            Ok(out) => out@ == generate_js_spec(name_in_file@, url@, method, handler@),
            Err(_) => false,
        },
{
    let import_query_string = add_import_query_string(handler);
    let pair = crate::generate_js::generate_params_type::generate_params_type(handler);
    let generate_params_name = pair.0;
    let generate_params_def = pair.1;
    let generate_response_io_data = generate_response_io(handler, &url, &method);
    let gen_url = generate_url(url.clone(), handler);
    let generate_method = get_method(&method);
    let generate_body = get_body(handler);
    let extra_headers_type = generate_headers_type(&handler.parameters);
    let extra_headers = generate_headers_param(&handler.parameters);
    let name_in_file_camelcase_big = to_big_camel_case(name_in_file.as_str());
    let name_in_file_camelcase_small = word_first_letter_to_lowercase(
        name_in_file_camelcase_big.as_str(),
    );
    let grp = generate_generic_response(&handler.responses);
    let generic_response_types = grp.0;
    let generic_response_ifs = grp.1;
    let mut s = String::from_str(
        "//The contents of this file have been generated automatically. Do not edit this file.\n\nimport * as t from 'io-ts';\nimport { isRight } from 'fp-ts/lib/Either';\nimport { fetchGeneralRaw, FetchGeneralRawResponseType } from 'src_common/common/fetch';\nimport { ApiTimeLog } from 'src_common/server/webDriver/logFormat';\n",
    );
    s.append(import_query_string);
    s.append("\n\n\n");
    s.append(generate_params_def.as_str());
    s.append("\n\n\n");
    s.append(generate_response_io_data.as_str());
    s.append("\n\n\n");
    s.append(extra_headers_type.as_str());
    s.append("\n\n\n/**\n * @deprecated - Please use this method \"");
    s.append(name_in_file_camelcase_small.as_str());
    s.append("Request\"\n */\nexport const ");
    s.append(name_in_file.as_str());
    s.append(" = async (api_url: string, api_timeout: number, backendToken: string, ");
    s.append(generate_params_name.as_str());
    s.append(", ");
    s.append(extra_headers.as_str());
    s.append("): Promise<FetchGeneralRawResponseType> => {\n    const url = `${api_url}");
    s.append(gen_url.as_str());
    s.append("`;\n    const method = ");
    s.append(generate_method.as_str());
    s.append(
        ";\n    const paramsFetch = {\n        url,\n        body: ",
    );
    s.append(generate_body.as_str());
    s.append(
        ",\n        backendToken,\n        timeout: api_timeout,\n        extraHeaders,\n    };\n\n    const apiTime = ApiTimeLog.createWithProcessEnv(method, url);\n    const response = await fetchGeneralRaw(method, paramsFetch);\n    apiTime.show(response.status);\n    return response;\n};\n\n\nexport type ",
    );
    s.append(name_in_file_camelcase_big.as_str());
    s.append("ParamsType = ParamsType;\n\nexport type ");
    s.append(name_in_file_camelcase_big.as_str());
    s.append("ResponseType = ");
    s.append(generic_response_types.as_str());
    s.append(";\n\nexport type ");
    s.append(name_in_file_camelcase_big.as_str());
    s.append("Response200Type = Response200Type;\n\nexport const ");
    s.append(name_in_file_camelcase_small.as_str());
    s.append("Request = async (api_url: string, api_timeout: number, backendToken: string, ");
    s.append(generate_params_name.as_str());
    s.append(", ");
    s.append(extra_headers.as_str());
    s.append("): Promise<");
    s.append(name_in_file_camelcase_big.as_str());
    s.append("ResponseType> => {\n    const response = await ");
    s.append(name_in_file.as_str());
    s.append(
        "(api_url, api_timeout, backendToken, params, extraHeaders);\n    const { status, body } = response;\n\n    const parse = (body: string): {\n        type: 'json',\n        json: unknown,\n    } | {\n        type: 'text'\n    } => {\n        try {\n            return {\n                type: 'json',\n                json: JSON.parse(body)\n            };\n        } catch (_err) {\n            return {\n                type: 'json',\n                json: {},\n            };\n        }\n    };\n    const bodyParsed = parse(body);\n\n    if (bodyParsed.type === 'text') {\n        throw Error(`Http status ${status} - json was expected`);\n    }\n\n    ",
    );
    s.append(generic_response_ifs.as_str());
    s.append("\n\n    throw new Error(`");
    s.append(name_in_file_camelcase_small.as_str());
    s.append("Request - unhandled response ${response.status}`);\n};\n\n");
    proof {
        assert(s@ =~= generate_js_spec(name_in_file@, url@, method, handler@));
    }
    Ok(s)
}

} // verus!
