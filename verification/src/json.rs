use vstd::prelude::*;
use vstd::string::StrSliceExecFns;
use vstd::string::StringExecFns;

use crate::agent::{Agent, AgentSource, AgentV, SourceV};
use crate::config::AgentsConfig;
use crate::errors::AgentError;

verus! {

// The registry persists as one JSON document:
//   {"agents":[{"name":...,"source":{"type":...,"value":...},"enabled":...}]}
// The emitter below renders that document; the parser reads the canonical
// form the emitter writes. The grammar is the pair of spec functions
// `render_config` and `sp_config`, and `lemma_parse_render` proves that
// parsing inverts rendering.
/// The mathematical values of a list of agents.
pub open spec fn views_of(agents: Seq<Agent>) -> Seq<AgentV> {
    agents.map_values(|a: Agent| a@)
}

/// A string escaped for a JSON document: '"' and '\' get a backslash,
/// every other character stands as itself.
pub open spec fn esc(s: Seq<char>) -> Seq<char>
    decreases s.len(),
{
    if s.len() == 0 {
        Seq::empty()
    } else {
        let c = s[0];
        (if c == '"' {
            seq!['\\', '"']
        } else if c == '\\' {
            seq!['\\', '\\']
        } else {
            seq![c]
        }) + esc(s.drop_first())
    }
}

/// Escaping distributes over concatenation.
pub proof fn lemma_esc_concat(a: Seq<char>, b: Seq<char>)
    ensures
        esc(a + b) == esc(a) + esc(b),
    decreases a.len(),
{
    if a.len() == 0 {
        assert(a + b =~= b);
        assert(esc(a) + esc(b) =~= esc(b));
    } else {
        assert((a + b).drop_first() =~= a.drop_first() + b);
        lemma_esc_concat(a.drop_first(), b);
        assert(esc(a + b) =~= esc(a) + esc(b));
    }
}

/// The rendering of one source value.
pub open spec fn render_source(src: SourceV) -> Seq<char> {
    match src {
        SourceV::Local(p) => "{\"type\":\"Local\",\"value\":\""@ + esc(p) + "\""@ + "}"@,
        SourceV::GitHub(u) => "{\"type\":\"GitHub\",\"value\":\""@ + esc(u) + "\""@ + "}"@,
    }
}

/// The rendering of one agent entry.
pub open spec fn render_agent(a: AgentV) -> Seq<char> {
    "{\"name\":\""@ + esc(a.name) + "\""@ + ",\"source\":"@ + render_source(a.source)
        + ",\"enabled\":"@ + (if a.enabled {
        "true"@
    } else {
        "false"@
    }) + "}"@
}

/// The renderings of the entries, separated by commas.
pub open spec fn render_agents(l: Seq<AgentV>) -> Seq<char>
    decreases l.len(),
{
    if l.len() == 0 {
        Seq::empty()
    } else if l.len() == 1 {
        render_agent(l[0])
    } else {
        render_agent(l[0]) + ","@ + render_agents(l.drop_first())
    }
}

/// The whole document.
pub open spec fn render_config(l: Seq<AgentV>) -> Seq<char> {
    "{\"agents\":["@ + render_agents(l) + "]}"@
}

// ---------------------------------------------------------------------
// The parser, over suffixes of the document: each function consumes a
// prefix and hands back what remains.
/// Consumes `lit` from the front of `s`.
pub open spec fn sp_lit(s: Seq<char>, lit: Seq<char>) -> Option<Seq<char>> {
    if s.len() >= lit.len() && s.take(lit.len() as int) == lit {
        Some(s.skip(lit.len() as int))
    } else {
        None
    }
}

/// Consumes a string body up to and including its closing quote, undoing
/// the escapes; the opening quote is already consumed.
pub open spec fn sp_string(s: Seq<char>) -> Option<(Seq<char>, Seq<char>)>
    decreases s.len(),
{
    if s.len() == 0 {
        None
    } else if s[0] == '"' {
        Some((Seq::empty(), s.skip(1)))
    } else if s[0] == '\\' {
        if s.len() >= 2 && (s[1] == '"' || s[1] == '\\') {
            match sp_string(s.skip(2)) {
                Some((c, rem)) => Some((seq![s[1]] + c, rem)),
                None => None,
            }
        } else {
            None
        }
    } else {
        match sp_string(s.skip(1)) {
            Some((c, rem)) => Some((seq![s[0]] + c, rem)),
            None => None,
        }
    }
}

/// Consumes a boolean literal.
pub open spec fn sp_bool(s: Seq<char>) -> Option<(bool, Seq<char>)> {
    match sp_lit(s, "true"@) {
        Some(rem) => Some((true, rem)),
        None => match sp_lit(s, "false"@) {
            Some(rem) => Some((false, rem)),
            None => None,
        },
    }
}

/// Consumes one source object.
pub open spec fn sp_source(s: Seq<char>) -> Option<(SourceV, Seq<char>)> {
    match sp_lit(s, "{\"type\":\"Local\",\"value\":\""@) {
        Some(r1) => match sp_string(r1) {
            Some((v, r2)) => match sp_lit(r2, "}"@) {
                Some(r3) => Some((SourceV::Local(v), r3)),
                None => None,
            },
            None => None,
        },
        None => match sp_lit(s, "{\"type\":\"GitHub\",\"value\":\""@) {
            Some(r1) => match sp_string(r1) {
                Some((v, r2)) => match sp_lit(r2, "}"@) {
                    Some(r3) => Some((SourceV::GitHub(v), r3)),
                    None => None,
                },
                None => None,
            },
            None => None,
        },
    }
}

/// Consumes one agent entry.
pub open spec fn sp_agent(s: Seq<char>) -> Option<(AgentV, Seq<char>)> {
    match sp_lit(s, "{\"name\":\""@) {
        Some(r1) => match sp_string(r1) {
            Some((name, r2)) => match sp_lit(r2, ",\"source\":"@) {
                Some(r3) => match sp_source(r3) {
                    Some((source, r4)) => match sp_lit(r4, ",\"enabled\":"@) {
                        Some(r5) => match sp_bool(r5) {
                            Some((enabled, r6)) => match sp_lit(r6, "}"@) {
                                Some(r7) => Some((AgentV { name, source, enabled }, r7)),
                                None => None,
                            },
                            None => None,
                        },
                        None => None,
                    },
                    None => None,
                },
                None => None,
            },
            None => None,
        },
        None => None,
    }
}

/// After a successful string parse, something was consumed.
pub proof fn lemma_sp_string_advance(s: Seq<char>)
    ensures
        sp_string(s) matches Some(p) ==> p.1.len() < s.len(),
    decreases s.len(),
{
    if s.len() == 0 {
    } else if s[0] == '"' {
    } else if s[0] == '\\' {
        if s.len() >= 2 && (s[1] == '"' || s[1] == '\\') {
            lemma_sp_string_advance(s.skip(2));
        }
    } else {
        lemma_sp_string_advance(s.skip(1));
    }
}

/// After a successful agent parse, something was consumed.
pub proof fn lemma_sp_agent_advance(s: Seq<char>)
    ensures
        sp_agent(s) matches Some(p) ==> p.1.len() < s.len(),
{
    if sp_agent(s) is Some {
        let r1 = sp_lit(s, "{\"name\":\""@)->Some_0;
        lemma_sp_string_advance(r1);
        let (_, r2) = sp_string(r1)->Some_0;
        let r3 = sp_lit(r2, ",\"source\":"@)->Some_0;
        if sp_lit(r3, "{\"type\":\"Local\",\"value\":\""@) is Some {
            let q1 = sp_lit(r3, "{\"type\":\"Local\",\"value\":\""@)->Some_0;
            lemma_sp_string_advance(q1);
        } else {
            let q1 = sp_lit(r3, "{\"type\":\"GitHub\",\"value\":\""@)->Some_0;
            lemma_sp_string_advance(q1);
        }
    }
}

/// Consumes a nonempty comma-separated list of agent entries.
pub open spec fn sp_agent_list(s: Seq<char>) -> Option<(Seq<AgentV>, Seq<char>)>
    decreases s.len(),
    via sp_agent_list_dec
{
    match sp_agent(s) {
        Some((a, rem)) => {
            if rem.len() > 0 && rem[0] == ',' {
                match sp_agent_list(rem.skip(1)) {
                    Some((l, rem2)) => Some((seq![a] + l, rem2)),
                    None => None,
                }
            } else {
                Some((seq![a], rem))
            }
        },
        None => None,
    }
}

#[via_fn]
proof fn sp_agent_list_dec(s: Seq<char>) {
    lemma_sp_agent_advance(s);
}

/// Consumes a possibly empty list of agent entries; an empty list is
/// recognized by the closing bracket, which stays unconsumed.
pub open spec fn sp_agents(s: Seq<char>) -> Option<(Seq<AgentV>, Seq<char>)> {
    if s.len() > 0 && s[0] == ']' {
        Some((Seq::empty(), s))
    } else {
        sp_agent_list(s)
    }
}

/// Escapes a string for the document.
fn escape_json(s: &str) -> (r: String)
    ensures
        r@ == esc(s@),
{
    let n = s.unicode_len();
    let mut out = String::new();
    let mut i: usize = 0;
    proof {
        assert(s@.take(0) =~= Seq::<char>::empty());
        assert(out@ =~= esc(s@.take(0)));
    }
    while i < n
        invariant
            i <= n,
            n == s@.len(),
            out@ == esc(s@.take(i as int)),
        decreases n - i,
    {
        let c = s.get_char(i);
        proof {
            assert(s@.take(i + 1) =~= s@.take(i as int) + seq![c]);
            lemma_esc_concat(s@.take(i as int), seq![c]);
            assert(seq![c].drop_first() =~= Seq::<char>::empty());
            assert(esc(Seq::<char>::empty()) =~= Seq::<char>::empty());
            assert(seq![c][0] == c);
        }
        if c == '"' {
            out.append("\\\"");
            proof {
                reveal_strlit("\\\"");
                assert(esc(seq![c]) =~= "\\\""@);
            }
        } else if c == '\\' {
            out.append("\\\\");
            proof {
                reveal_strlit("\\\\");
                assert(esc(seq![c]) =~= "\\\\"@);
            }
        } else {
            let piece = s.substring_char(i, i + 1);
            proof {
                assert(piece@ =~= seq![c]);
                assert(esc(seq![c]) =~= seq![c]);
            }
            out.append(piece);
        }
        i = i + 1;
    }
    proof {
        assert(s@.take(n as int) =~= s@);
    }
    out
}

/// Renders one source object.
fn source_to_json(src: &AgentSource) -> (r: String)
    ensures
        r@ == render_source(src@),
{
    match src {
        AgentSource::Local(p) => String::from_str("{\"type\":\"Local\",\"value\":\"").concat(
            escape_json(p.as_str()).as_str(),
        ).concat("\"").concat("}"),
        AgentSource::GitHub(u) => String::from_str("{\"type\":\"GitHub\",\"value\":\"").concat(
            escape_json(u.as_str()).as_str(),
        ).concat("\"").concat("}"),
    }
}

/// Renders one agent entry.
fn agent_to_json(a: &Agent) -> (r: String)
    ensures
        r@ == render_agent(a@),
{
    let b: &'static str = if a.enabled {
        "true"
    } else {
        "false"
    };
    String::from_str("{\"name\":\"").concat(escape_json(a.name.as_str()).as_str()).concat(
        "\"",
    ).concat(",\"source\":").concat(source_to_json(&a.source).as_str()).concat(
        ",\"enabled\":",
    ).concat(b).concat("}")
}

impl AgentsConfig {
    /// Renders the registry as its persisted document.
    pub fn to_json(&self) -> (r: String)
        ensures
            r@ == render_config(views_of(self.agents@)),
    {
        let ghost l = views_of(self.agents@);
        let n = self.agents.len();
        let mut body = String::new();
        let mut i: usize = 0;
        proof {
            assert(l.len() == n);
        }
        if n > 0 {
            body = agent_to_json(&self.agents[0]);
            i = 1;
            proof {
                assert(l.take(1) =~= seq![l[0]]);
                assert(render_agents(l.take(1)) == render_agent(l[0]));
            }
        } else {
            proof {
                assert(l.take(0) =~= Seq::<AgentV>::empty());
                assert(body@ =~= render_agents(l.take(0)));
            }
        }
        while i < n
            invariant
                1 <= i <= n || (i == 0 && n == 0),
                n == self.agents.len(),
                l == views_of(self.agents@),
                l.len() == n,
                body@ == render_agents(l.take(i as int)),
            decreases n - i,
        {
            proof {
                lemma_render_agents_snoc(l.take(i as int), l[i as int]);
                assert(l.take(i + 1) =~= l.take(i as int).push(l[i as int]));
            }
            body = body.concat(",").concat(agent_to_json(&self.agents[i]).as_str());
            i = i + 1;
        }
        proof {
            assert(l.take(n as int) =~= l);
        }
        String::from_str("{\"agents\":[").concat(body.as_str()).concat("]}")
    }
}

/// Appending an entry extends the rendered list with a comma and the
/// entry's rendering (the first entry has no separator).
pub proof fn lemma_render_agents_snoc(l: Seq<AgentV>, a: AgentV)
    requires
        l.len() > 0,
    ensures
        render_agents(l.push(a)) == render_agents(l) + ","@ + render_agent(a),
    decreases l.len(),
{
    if l.len() == 1 {
        assert(l.push(a).drop_first() =~= seq![a]);
        assert(render_agents(seq![a]) == render_agent(a));
        assert(l.push(a)[0] == l[0]);
        assert(render_agents(l.push(a)) =~= render_agents(l) + ","@ + render_agent(a));
    } else {
        assert(l.push(a).drop_first() =~= l.drop_first().push(a));
        lemma_render_agents_snoc(l.drop_first(), a);
        assert(l.push(a)[0] == l[0]);
        assert(render_agents(l.push(a)) =~= render_agents(l) + ","@ + render_agent(a));
    }
}

/// Parses a whole document; every character must be consumed.
pub open spec fn sp_config(s: Seq<char>) -> Option<Seq<AgentV>> {
    match sp_lit(s, "{\"agents\":["@) {
        Some(r1) => match sp_agents(r1) {
            Some((l, r2)) => match sp_lit(r2, "]}"@) {
                Some(r3) => if r3.len() == 0 {
                    Some(l)
                } else {
                    None
                },
                None => None,
            },
            None => None,
        },
        None => None,
    }
}

// ---------------------------------------------------------------------
// Parsing inverts rendering.
/// A literal at the front of the input is consumed exactly.
proof fn lemma_sp_lit_prefix(lit: Seq<char>, rest: Seq<char>)
    ensures
        sp_lit(lit + rest, lit) == Some(rest),
{
    assert((lit + rest).take(lit.len() as int) =~= lit);
    assert((lit + rest).skip(lit.len() as int) =~= rest);
}

/// A rendered string body parses back to its content, leaving the rest.
proof fn lemma_sp_string_esc(content: Seq<char>, rest: Seq<char>)
    ensures
        sp_string(esc(content) + seq!['"'] + rest) == Some((content, rest)),
    decreases content.len(),
{
    let s = esc(content) + seq!['"'] + rest;
    if content.len() == 0 {
        assert(esc(content) =~= Seq::<char>::empty());
        assert(s[0] == '"');
        assert(s.skip(1) =~= rest);
        assert(sp_string(s) == Some((Seq::<char>::empty(), rest)));
    } else {
        let c = content[0];
        let tail = content.drop_first();
        assert(esc(content) == (if c == '"' {
            seq!['\\', '"']
        } else if c == '\\' {
            seq!['\\', '\\']
        } else {
            seq![c]
        }) + esc(tail));
        lemma_sp_string_esc(tail, rest);
        if c == '"' || c == '\\' {
            assert(s[0] == '\\');
            assert(s[1] == c);
            assert(s.len() >= 2);
            assert(s.skip(2) =~= esc(tail) + seq!['"'] + rest);
            assert(seq![c] + tail =~= content);
        } else {
            assert(s[0] == c);
            assert(s.skip(1) =~= esc(tail) + seq!['"'] + rest);
            assert(seq![c] + tail =~= content);
        }
    }
}

/// A rendered boolean parses back to its value.
proof fn lemma_sp_bool_render(b: bool, rest: Seq<char>)
    ensures
        sp_bool((if b {
            "true"@
        } else {
            "false"@
        }) + rest) == Some((b, rest)),
{
    reveal_strlit("true");
    reveal_strlit("false");
    if b {
        lemma_sp_lit_prefix("true"@, rest);
    } else {
        let s = "false"@ + rest;
        assert(s[0] == 'f');
        assert("true"@[0] == 't');
        assert(sp_lit(s, "true"@) is None);
        lemma_sp_lit_prefix("false"@, rest);
    }
}

/// A rendered source object parses back to its value.
proof fn lemma_sp_source_render(src: SourceV, rest: Seq<char>)
    ensures
        sp_source(render_source(src) + rest) == Some((src, rest)),
{
    reveal_strlit("\"");
    reveal_strlit("}");
    match src {
        SourceV::Local(p) => {
            let s = render_source(src) + rest;
            assert(s =~= "{\"type\":\"Local\",\"value\":\""@ + (esc(p) + seq!['"'] + ("}"@
                + rest)));
            lemma_sp_lit_prefix("{\"type\":\"Local\",\"value\":\""@, esc(p) + seq!['"'] + ("}"@
                + rest));
            lemma_sp_string_esc(p, "}"@ + rest);
            lemma_sp_lit_prefix("}"@, rest);
        },
        SourceV::GitHub(u) => {
            let s = render_source(src) + rest;
            reveal_strlit("{\"type\":\"Local\",\"value\":\"");
            reveal_strlit("{\"type\":\"GitHub\",\"value\":\"");
            assert("{\"type\":\"Local\",\"value\":\""@[9] == 'L');
            assert("{\"type\":\"GitHub\",\"value\":\""@[9] == 'G');
            assert(s[9] == 'G');
            assert(sp_lit(s, "{\"type\":\"Local\",\"value\":\""@) is None) by {
                if sp_lit(s, "{\"type\":\"Local\",\"value\":\""@) is Some {
                    assert(s.take(25)[9] == "{\"type\":\"Local\",\"value\":\""@[9]);
                }
            }
            assert(s =~= "{\"type\":\"GitHub\",\"value\":\""@ + (esc(u) + seq!['"'] + ("}"@
                + rest)));
            lemma_sp_lit_prefix("{\"type\":\"GitHub\",\"value\":\""@, esc(u) + seq!['"'] + ("}"@
                + rest));
            lemma_sp_string_esc(u, "}"@ + rest);
            lemma_sp_lit_prefix("}"@, rest);
        },
    }
}

/// A rendered agent entry parses back to its value.
proof fn lemma_sp_agent_render(a: AgentV, rest: Seq<char>)
    ensures
        sp_agent(render_agent(a) + rest) == Some((a, rest)),
{
    reveal_strlit("\"");
    reveal_strlit("}");
    let s = render_agent(a) + rest;
    let boolpart = if a.enabled {
        "true"@
    } else {
        "false"@
    };
    let after_name = ",\"source\":"@ + (render_source(a.source) + (",\"enabled\":"@ + (boolpart + (
    "}"@ + rest))));
    assert(s =~= "{\"name\":\""@ + (esc(a.name) + seq!['"'] + after_name));
    lemma_sp_lit_prefix("{\"name\":\""@, esc(a.name) + seq!['"'] + after_name);
    lemma_sp_string_esc(a.name, after_name);
    lemma_sp_lit_prefix(
        ",\"source\":"@,
        render_source(a.source) + (",\"enabled\":"@ + (boolpart + ("}"@ + rest))),
    );
    lemma_sp_source_render(a.source, ",\"enabled\":"@ + (boolpart + ("}"@ + rest)));
    lemma_sp_lit_prefix(",\"enabled\":"@, boolpart + ("}"@ + rest));
    lemma_sp_bool_render(a.enabled, "}"@ + rest);
    lemma_sp_lit_prefix("}"@, rest);
}

/// A rendered nonempty list parses back to its entries, stopping at the
/// closing bracket.
proof fn lemma_sp_agent_list_render(l: Seq<AgentV>, rest: Seq<char>)
    requires
        l.len() > 0,
        rest.len() > 0,
        rest[0] == ']',
    ensures
        sp_agent_list(render_agents(l) + rest) == Some((l, rest)),
    decreases l.len(),
{
    reveal_strlit(",");
    let s = render_agents(l) + rest;
    if l.len() == 1 {
        lemma_sp_agent_render(l[0], rest);
        assert(sp_agent(s) == Some((l[0], rest)));
        assert(rest[0] != ',');
        assert(seq![l[0]] =~= l);
    } else {
        let tail = l.drop_first();
        assert(s =~= render_agent(l[0]) + (","@ + (render_agents(tail) + rest)));
        lemma_sp_agent_render(l[0], ","@ + (render_agents(tail) + rest));
        let rem = ","@ + (render_agents(tail) + rest);
        assert(rem[0] == ',');
        assert(rem.skip(1) =~= render_agents(tail) + rest);
        lemma_sp_agent_list_render(tail, rest);
        assert(seq![l[0]] + tail =~= l);
    }
}

/// Parsing inverts rendering: the document the emitter writes for a list
/// of agents reads back as exactly that list. Together with the contracts
/// of `to_json` and `from_json`, a saved registry loads unchanged.
pub proof fn lemma_parse_render(l: Seq<AgentV>)
    ensures
        sp_config(render_config(l)) == Some(l),
{
    reveal_strlit("{\"agents\":[");
    reveal_strlit("]}");
    let s = render_config(l);
    assert(s =~= "{\"agents\":["@ + (render_agents(l) + "]}"@));
    lemma_sp_lit_prefix("{\"agents\":["@, render_agents(l) + "]}"@);
    let r1 = render_agents(l) + "]}"@;
    assert("]}"@[0] == ']');
    if l.len() == 0 {
        assert(render_agents(l) =~= Seq::<char>::empty());
        assert(r1 =~= "]}"@);
        assert(r1[0] == ']');
        assert(sp_agents(r1) == Some((Seq::<AgentV>::empty(), r1)));
    } else {
        assert(r1[0] == '{') by {
            reveal_strlit("{\"name\":\"");
            assert(render_agent(l[0])[0] == '{');
            if l.len() == 1 {
            } else {
            }
        }
        lemma_sp_agent_list_render(l, "]}"@);
    }
    assert("]}"@ =~= "]}"@ + Seq::<char>::empty());
    lemma_sp_lit_prefix("]}"@, Seq::<char>::empty());
    assert(sp_lit("]}"@, "]}"@) == Some(Seq::<char>::empty()));
}

// ---------------------------------------------------------------------
// The executable parser. Each function mirrors the spec parser on the
// suffix of the input that starts at `i`.
/// Consumes `lit` at position `i`.
fn p_lit(s: &str, i: usize, lit: &str) -> (r: Option<usize>)
    requires
        i <= s@.len(),
    ensures
        match r {
            Some(j) => sp_lit(s@.skip(i as int), lit@) == Some(s@.skip(j as int)) && i <= j
                <= s@.len(),
            None => sp_lit(s@.skip(i as int), lit@) is None,
        },
{
    let ghost suf = s@.skip(i as int);
    let n = s.unicode_len();
    let k = lit.unicode_len();
    if n - i < k {
        return None;
    }
    let mut m: usize = 0;
    while m < k
        invariant
            m <= k,
            i + k <= n,
            n == s@.len(),
            k == lit@.len(),
            suf == s@.skip(i as int),
            forall|q: int| 0 <= q < m ==> suf[q] == lit@[q],
        decreases k - m,
    {
        if s.get_char(i + m) != lit.get_char(m) {
            proof {
                assert(suf[m as int] == s@[i + m]);
                assert(suf.take(k as int)[m as int] != lit@[m as int]);
            }
            return None;
        }
        proof {
            assert(suf[m as int] == s@[i + m]);
        }
        m = m + 1;
    }
    proof {
        assert(suf.take(k as int) =~= lit@);
        assert(suf.skip(k as int) =~= s@.skip(i + k));
    }
    Some(i + k)
}

/// Consumes a string body at position `i`, the opening quote already
/// consumed, undoing the escapes.
fn p_string(s: &str, i: usize) -> (r: Option<(String, usize)>)
    requires
        i <= s@.len(),
    ensures
        match r {
            Some(p) => sp_string(s@.skip(i as int)) == Some((p.0@, s@.skip(p.1 as int))) && i < p.1
                <= s@.len(),
            None => sp_string(s@.skip(i as int)) is None,
        },
    decreases s@.len() - i,
{
    let ghost suf = s@.skip(i as int);
    let n = s.unicode_len();
    if i >= n {
        return None;
    }
    let c = s.get_char(i);
    proof {
        assert(suf[0] == c);
        assert(suf.skip(1) =~= s@.skip(i + 1));
    }
    if c == '"' {
        Some((String::new(), i + 1))
    } else if c == '\\' {
        if i + 1 < n {
            let c2 = s.get_char(i + 1);
            proof {
                assert(suf[1] == c2);
                assert(suf.skip(2) =~= s@.skip(i + 2));
            }
            if c2 == '"' || c2 == '\\' {
                match p_string(s, i + 2) {
                    Some((rest, j)) => {
                        let piece = s.substring_char(i + 1, i + 2);
                        proof {
                            assert(piece@ =~= seq![c2]);
                        }
                        let content = piece.to_owned().concat(rest.as_str());
                        Some((content, j))
                    },
                    None => None,
                }
            } else {
                None
            }
        } else {
            None
        }
    } else {
        match p_string(s, i + 1) {
            Some((rest, j)) => {
                let piece = s.substring_char(i, i + 1);
                proof {
                    assert(piece@ =~= seq![c]);
                }
                let content = piece.to_owned().concat(rest.as_str());
                Some((content, j))
            },
            None => None,
        }
    }
}

/// Consumes a boolean literal at position `i`.
fn p_bool(s: &str, i: usize) -> (r: Option<(bool, usize)>)
    requires
        i <= s@.len(),
    ensures
        match r {
            Some(p) => sp_bool(s@.skip(i as int)) == Some((p.0, s@.skip(p.1 as int))) && i <= p.1
                <= s@.len(),
            None => sp_bool(s@.skip(i as int)) is None,
        },
{
    match p_lit(s, i, "true") {
        Some(j) => Some((true, j)),
        None => match p_lit(s, i, "false") {
            Some(j) => Some((false, j)),
            None => None,
        },
    }
}

/// Consumes one source object at position `i`.
fn p_source(s: &str, i: usize) -> (r: Option<(AgentSource, usize)>)
    requires
        i <= s@.len(),
    ensures
        match r {
            Some(p) => sp_source(s@.skip(i as int)) == Some((p.0@, s@.skip(p.1 as int))) && i <= p.1
                <= s@.len(),
            None => sp_source(s@.skip(i as int)) is None,
        },
{
    match p_lit(s, i, "{\"type\":\"Local\",\"value\":\"") {
        Some(r1) => match p_string(s, r1) {
            Some((v, r2)) => match p_lit(s, r2, "}") {
                Some(r3) => Some((AgentSource::Local(v), r3)),
                None => None,
            },
            None => None,
        },
        None => match p_lit(s, i, "{\"type\":\"GitHub\",\"value\":\"") {
            Some(r1) => match p_string(s, r1) {
                Some((v, r2)) => match p_lit(s, r2, "}") {
                    Some(r3) => Some((AgentSource::GitHub(v), r3)),
                    None => None,
                },
                None => None,
            },
            None => None,
        },
    }
}

/// Consumes one agent entry at position `i`.
fn p_agent(s: &str, i: usize) -> (r: Option<(Agent, usize)>)
    requires
        i <= s@.len(),
    ensures
        match r {
            Some(p) => sp_agent(s@.skip(i as int)) == Some((p.0@, s@.skip(p.1 as int))) && i < p.1
                <= s@.len(),
            None => sp_agent(s@.skip(i as int)) is None,
        },
{
    let r = match p_lit(s, i, "{\"name\":\"") {
        Some(r1) => match p_string(s, r1) {
            Some((name, r2)) => match p_lit(s, r2, ",\"source\":") {
                Some(r3) => match p_source(s, r3) {
                    Some((source, r4)) => match p_lit(s, r4, ",\"enabled\":") {
                        Some(r5) => match p_bool(s, r5) {
                            Some((enabled, r6)) => match p_lit(s, r6, "}") {
                                Some(r7) => Some((Agent { name, source, enabled }, r7)),
                                None => None,
                            },
                            None => None,
                        },
                        None => None,
                    },
                    None => None,
                },
                None => None,
            },
            None => None,
        },
        None => None,
    };
    proof {
        if r is Some {
            lemma_sp_agent_advance(s@.skip(i as int));
        }
    }
    r
}

/// Consumes a nonempty comma-separated list of agent entries at `i`.
fn p_agent_list(s: &str, i: usize) -> (r: Option<(Vec<Agent>, usize)>)
    requires
        i <= s@.len(),
    ensures
        match r {
            Some(p) => sp_agent_list(s@.skip(i as int)) == Some(
                (views_of(p.0@), s@.skip(p.1 as int)),
            ) && i < p.1 <= s@.len(),
            None => sp_agent_list(s@.skip(i as int)) is None,
        },
    decreases s@.len() - i,
{
    let ghost suf = s@.skip(i as int);
    match p_agent(s, i) {
        Some((a, j)) => {
            let ghost rem = s@.skip(j as int);
            let more = if j < s.unicode_len() {
                s.get_char(j) == ','
            } else {
                false
            };
            proof {
                if j < s@.len() {
                    assert(rem[0] == s@[j as int]);
                }
                assert(more == (rem.len() > 0 && rem[0] == ','));
            }
            if more {
                proof {
                    assert(rem.skip(1) =~= s@.skip(j + 1));
                }
                match p_agent_list(s, j + 1) {
                    Some((l, k)) => {
                        let mut out: Vec<Agent> = Vec::new();
                        out.push(a);
                        let mut rest = l;
                        let ghost restv = views_of(rest@);
                        let mut q: usize = 0;
                        proof {
                            assert(views_of(out@) =~= seq![out@[0]@]);
                            assert(restv.take(0) =~= Seq::<AgentV>::empty());
                            assert(views_of(out@) =~= seq![out@[0]@] + restv.take(0));
                        }
                        while q < rest.len()
                            invariant
                                q <= rest.len(),
                                restv == views_of(rest@),
                                out@.len() == q + 1,
                                out@[0] == a,
                                views_of(out@) == seq![out@[0]@] + restv.take(q as int),
                            decreases rest.len() - q,
                        {
                            let ghost prev = views_of(out@);
                            out.push(rest[q].clone());
                            proof {
                                assert(views_of(out@) =~= prev.push(rest@[q as int]@));
                                assert(restv.take(q + 1) =~= restv.take(q as int).push(
                                    restv[q as int],
                                ));
                                assert(restv[q as int] == rest@[q as int]@);
                                assert(prev.push(rest@[q as int]@) =~= seq![out@[0]@] + restv.take(
                                    q + 1,
                                ));
                            }
                            q = q + 1;
                        }
                        proof {
                            assert(restv.take(rest@.len() as int) =~= restv);
                            assert(views_of(out@) =~= seq![a@] + views_of(l@));
                        }
                        Some((out, k))
                    },
                    None => None,
                }
            } else {
                let mut out: Vec<Agent> = Vec::new();
                out.push(a);
                proof {
                    assert(views_of(out@) =~= seq![a@]);
                }
                Some((out, j))
            }
        },
        None => None,
    }
}

/// Consumes a possibly empty list of agent entries at `i`.
fn p_agents(s: &str, i: usize) -> (r: Option<(Vec<Agent>, usize)>)
    requires
        i <= s@.len(),
    ensures
        match r {
            Some(p) => sp_agents(s@.skip(i as int)) == Some((views_of(p.0@), s@.skip(p.1 as int)))
                && i <= p.1 <= s@.len(),
            None => sp_agents(s@.skip(i as int)) is None,
        },
{
    let ghost suf = s@.skip(i as int);
    let empty = if i < s.unicode_len() {
        s.get_char(i) == ']'
    } else {
        false
    };
    proof {
        if i < s@.len() {
            assert(suf[0] == s@[i as int]);
        }
        assert(empty == (suf.len() > 0 && suf[0] == ']'));
    }
    if empty {
        let out: Vec<Agent> = Vec::new();
        proof {
            assert(views_of(out@) =~= Seq::<AgentV>::empty());
        }
        Some((out, i))
    } else {
        p_agent_list(s, i)
    }
}

impl AgentsConfig {
    /// Parses a persisted registry document; fails on anything the
    /// emitter would not write.
    pub fn from_json(s: &str) -> (r: Result<AgentsConfig, AgentError>)
        ensures
            match r {
                Ok(c) => sp_config(s@) == Some(views_of(c.agents@)),
                Err(e) => sp_config(s@) is None && e matches AgentError::ConfigParseError(_),
            },
    {
        let ghost whole = s@;
        proof {
            assert(whole.skip(0) =~= whole);
        }
        let n = s.unicode_len();
        let r1 = match p_lit(s, 0, "{\"agents\":[") {
            Some(j) => j,
            None => {
                return Err(
                    AgentError::ConfigParseError(String::from_str("expected an agents document")),
                );
            },
        };
        let (agents, r2) = match p_agents(s, r1) {
            Some(p) => p,
            None => {
                return Err(
                    AgentError::ConfigParseError(String::from_str("malformed agent entry")),
                );
            },
        };
        let r3 = match p_lit(s, r2, "]}") {
            Some(j) => j,
            None => {
                return Err(
                    AgentError::ConfigParseError(
                        String::from_str("expected the end of the document"),
                    ),
                );
            },
        };
        if r3 != n {
            return Err(
                AgentError::ConfigParseError(String::from_str("trailing text after the document")),
            );
        }
        proof {
            assert(whole.skip(n as int).len() == 0);
        }
        Ok(AgentsConfig { agents })
    }
}

} // verus!
