//! Textual security policies: a table name and a SQL predicate, read from a
//! JSON array of policy objects.

use vstd::prelude::*;
use vstd::std_specs::iter::IteratorSpec;
use vstd::string::StringExecFns;

verus! {

broadcast use {vstd::string::next_postcondition, vstd::string::axiom_spec_iter};

/// serde_json's dynamic JSON value, declared opaque.
#[verifier::external_type_specification]
#[verifier::external_body]
pub struct ExValue(serde_json::Value);

/// nom_sql's parsed SQL statement, declared opaque.
#[verifier::external_type_specification]
#[verifier::external_body]
pub struct ExSqlQuery(nom_sql::SqlQuery);

/// The `(table, rendered table, predicate)` string triples the text yields as
/// a JSON array of policy objects, when it yields any: the `"table"` and
/// `"predicate"` string fields of each element, and the JSON rendering of the
/// table value. A function of the text alone.
pub uninterp spec fn policy_fields_of(s: Seq<char>) -> Option<Seq<(Seq<char>, Seq<char>, Seq<char>)>>;

/// Whether the text parses as one SQL statement: a function of the text
/// alone.
pub uninterp spec fn sql_parses(q: Seq<char>) -> bool;

/// Relies on serde_json: `from_str` deserializes the array, `Value::get` and
/// `Value::as_str` read each element's `"table"` and `"predicate"` string
/// fields, and `Value`'s `Display` renders the table value as JSON text. All
/// are functions of the text alone; any failure becomes `None`.
#[verifier::external_body]
fn json_policy_fields(text: &str) -> (r: Option<Vec<(String, String, String)>>)
    ensures
        match r {
            Some(fs) => {
                let m = policy_fields_of(text@)->Some_0;
                &&& policy_fields_of(text@) is Some
                &&& m.len() == fs@.len()
                &&& forall|i: int|
                    0 <= i < fs@.len() ==> #[trigger] m[i] == (fs@[i].0@, fs@[i].1@, fs@[i].2@)
            },
            None => policy_fields_of(text@) is None,
        },
{
    let vals: Vec<serde_json::Value> = serde_json::from_str(text).ok()?;
    let mut out: Vec<(String, String, String)> = Vec::new();
    for v in vals.iter() {
        let tv = v.get("table")?;
        let t = tv.as_str()?;
        let p = v.get("predicate")?.as_str()?;
        out.push((t.to_owned(), tv.to_string(), p.to_owned()));
    }
    Some(out)
}

/// The widest digit run admitted right after an opening parenthesis: such a
/// run can be a type or index length, which the SQL parser converts to
/// sixteen bits with an unchecked unwrap.
pub const MAX_LEN_DIGITS: usize = 4;

/// The widest digit run admitted beside a decimal point: the two halves of a
/// fixed-point literal are converted to thirty-two bits unchecked.
pub const MAX_FIXED_DIGITS: usize = 9;

/// The widest digit run admitted anywhere else: plain integer literals are
/// converted to sixty-four bits unchecked.
pub const MAX_INT_DIGITS: usize = 18;

/// Relies on nom_sql::parser::parse_query: success is a function of the query
/// text alone. The parser converts every digit run it accepts by unwrapping
/// `from_str`: runs delimited by `(`...`)` (type and index lengths) into
/// sixteen bits, runs beside a `.` (fixed-point halves) into thirty-two, and
/// any other run (integer literals, limits) into at least sixty-four. Texts
/// with a run too wide for its position are excluded here; everything
/// narrower converts without panicking.
#[verifier::external_body]
fn parse_sql(q: &str) -> (r: Option<nom_sql::SqlQuery>)
    requires
        digit_runs_admissible(q@),
    ensures
        r is Some <==> sql_parses(q@),
{
    nom_sql::parser::parse_query(q).ok()
}

/// Whether a character is a decimal digit.
pub open spec fn spec_is_digit(c: char) -> bool {
    48 <= c as u32 <= 57
}

/// A maximal digit run of `s`: the positions `[i, j)` hold digits and both
/// neighbours, where they exist, do not.
pub open spec fn is_digit_run(s: Seq<char>, i: int, j: int) -> bool {
    &&& 0 <= i < j <= s.len()
    &&& forall|k: int| i <= k < j ==> spec_is_digit(#[trigger] s[k])
    &&& (i == 0 || !spec_is_digit(s[i - 1]))
    &&& (j == s.len() || !spec_is_digit(s[j]))
}

/// The width the SQL parser's conversions admit for a run in this position:
/// a parenthesized length, a fixed-point half, or a plain integer.
pub open spec fn run_cap(s: Seq<char>, i: int, j: int) -> usize {
    if i > 0 && s[i - 1] == '(' {
        MAX_LEN_DIGITS
    } else if (i > 0 && s[i - 1] == '.') || (j < s.len() && s[j] == '.') {
        MAX_FIXED_DIGITS
    } else {
        MAX_INT_DIGITS
    }
}

/// Whether every maximal digit run of the text fits the conversion its
/// position feeds.
pub open spec fn digit_runs_admissible(s: Seq<char>) -> bool {
    forall|i: int, j: int| #[trigger] is_digit_run(s, i, j) ==> j - i <= run_cap(s, i, j)
}

/// Decides `digit_runs_admissible` in one pass. The run length saturates
/// just above the largest cap: anything longer is inadmissible wherever it
/// stands.
pub fn digit_runs_ok(s: &str) -> (r: bool)
    ensures
        r == digit_runs_admissible(s@),
{
    let mut it = s.chars();
    let mut prev: Option<char> = None;
    let mut run_len: usize = 0;
    let mut run_prev: Option<char> = None;
    let ghost mut k: int = 0;
    let ghost mut rs: int = 0;
    loop
        invariant
            0 <= k <= s@.len(),
            it.remaining() =~= s@.skip(k),
            k > 0 ==> prev == Some(s@[k - 1]),
            k == 0 ==> prev is None,
            run_len > 0 ==> {
                &&& 0 <= rs < k
                &&& forall|t: int| rs <= t < k ==> spec_is_digit(#[trigger] s@[t])
                &&& (rs == 0 ==> run_prev is None)
                &&& (rs > 0 ==> run_prev == Some(s@[rs - 1]) && !spec_is_digit(s@[rs - 1]))
                &&& (k - rs <= 19 ==> run_len == k - rs)
                &&& (k - rs > 19 ==> run_len == 19)
            },
            run_len == 0 ==> (k == 0 || !spec_is_digit(s@[k - 1])),
            forall|i: int, j: int|
                #[trigger] is_digit_run(s@, i, j) && j < k ==> j - i <= run_cap(s@, i, j),
        decreases s@.len() - k,
    {
        let ghost pre = it.remaining();
        let c = it.next();
        match c {
            Some(ch) => {
                proof {
                    assert(pre.len() > 0);
                    assert(ch == s@[k]);
                    assert(it.remaining() =~= s@.skip(k + 1));
                }
                let code = ch as u32;
                proof {
                    assert((48 <= code && code <= 57) == spec_is_digit(ch));
                }
                if 48 <= code && code <= 57 {
                    if run_len == 0 {
                        run_prev = prev;
                        proof {
                            rs = k;
                        }
                    }
                    if run_len < 19 {
                        run_len += 1;
                    }
                } else {
                    if run_len > 0 {
                        let cap = run_end_cap(run_prev, Some(ch));
                        proof {
                            assert(cap == run_cap(s@, rs, k));
                        }
                        if run_len > cap {
                            proof {
                                assert(is_digit_run(s@, rs, k));
                                assert(k - rs > cap);
                                assert(!digit_runs_admissible(s@)) by {
                                    if digit_runs_admissible(s@) {
                                        assert(is_digit_run(s@, rs, k) ==> k - rs <= run_cap(
                                            s@,
                                            rs,
                                            k,
                                        ));
                                    }
                                }
                            }
                            return false;
                        }
                        proof {
                            assert forall|i: int, j: int|
                                #[trigger] is_digit_run(s@, i, j) && j < k + 1 implies j - i
                                <= run_cap(s@, i, j) by {
                                if j == k {
                                    assert(i == rs) by {
                                        if i < rs {
                                            assert(spec_is_digit(s@[rs - 1]));
                                        }
                                        if i > rs {
                                            assert(spec_is_digit(s@[i - 1]));
                                        }
                                    }
                                }
                            }
                        }
                    }
                    run_len = 0;
                }
                prev = Some(ch);
                proof {
                    k = k + 1;
                }
            },
            None => {
                proof {
                    assert(pre.len() == 0);
                    assert(k == s@.len());
                }
                if run_len > 0 {
                    let cap = run_end_cap(run_prev, None);
                    proof {
                        assert(cap == run_cap(s@, rs, k));
                    }
                    if run_len > cap {
                        proof {
                            assert(is_digit_run(s@, rs, k));
                            assert(!digit_runs_admissible(s@)) by {
                                if digit_runs_admissible(s@) {
                                    assert(is_digit_run(s@, rs, k) ==> k - rs <= run_cap(
                                        s@,
                                        rs,
                                        k,
                                    ));
                                }
                            }
                        }
                        return false;
                    }
                }
                proof {
                    assert forall|i: int, j: int| #[trigger]
                        is_digit_run(s@, i, j) implies j - i <= run_cap(s@, i, j) by {
                        if j == k {
                            assert(run_len > 0) by {
                                assert(spec_is_digit(s@[j - 1]));
                            }
                            assert(i == rs) by {
                                if i < rs {
                                    assert(spec_is_digit(s@[rs - 1]));
                                }
                                if i > rs {
                                    assert(spec_is_digit(s@[i - 1]));
                                }
                            }
                        }
                    }
                }
                return true;
            },
        }
    }
}

/// The cap for a run that just ended, from the characters beside it.
fn run_end_cap(before: Option<char>, after: Option<char>) -> (r: usize)
    ensures
        r == (if before == Some('(') {
            MAX_LEN_DIGITS
        } else if before == Some('.') || after == Some('.') {
            MAX_FIXED_DIGITS
        } else {
            MAX_INT_DIGITS
        }),
{
    let before_paren = match before {
        Some(p) => p == '(',
        None => false,
    };
    let before_dot = match before {
        Some(p) => p == '.',
        None => false,
    };
    let after_dot = match after {
        Some(p) => p == '.',
        None => false,
    };
    if before_paren {
        MAX_LEN_DIGITS
    } else if before_dot || after_dot {
        MAX_FIXED_DIGITS
    } else {
        MAX_INT_DIGITS
    }
}

/// One security policy: the table it restricts and its predicate.
#[derive(Debug)]
pub struct Policy {
    pub table: String,
    pub predicate: nom_sql::SqlQuery,
}

/// The SQL text a policy entry assembles: a SELECT on its table, the
/// predicate appended as the statement's tail.
pub open spec fn assembled_query(table: Seq<char>, pred: Seq<char>) -> Seq<char> {
    "select * from "@ + table + " "@ + pred + ";"@
}

/// Whether every policy entry's assembled query is admissible.
pub open spec fn all_queries_admissible(m: Seq<(Seq<char>, Seq<char>, Seq<char>)>) -> bool {
    forall|i: int|
        0 <= i < m.len() ==> query_admissible(assembled_query(#[trigger] m[i].0, m[i].2))
}

/// Whether an assembled query may be handed to the SQL parser and parses:
/// each digit run fits the conversion its position feeds, and the parse
/// succeeds.
pub open spec fn query_admissible(q: Seq<char>) -> bool {
    digit_runs_admissible(q) && sql_parses(q)
}

impl Policy {
    /// Reads a JSON array of `{ "table": ..., "predicate": ... }` objects
    /// into policies, the i-th policy built from the i-th element: its table
    /// the JSON rendering of the `"table"` value (quotes kept), its predicate
    /// the parse of `select * from <table> <predicate>;`. `None` exactly when
    /// the text yields no field triples (no JSON array of objects with string
    /// fields) or some assembled query is inadmissible.
    pub fn parse(policy_text: &str) -> (r: Option<Vec<Policy>>)
        ensures
            policy_fields_of(policy_text@) is None ==> r is None,
            r is Some ==> policy_fields_of(policy_text@) is Some && all_queries_admissible(
                policy_fields_of(policy_text@)->Some_0,
            ),
            policy_fields_of(policy_text@) is Some && r is None ==> !all_queries_admissible(
                policy_fields_of(policy_text@)->Some_0,
            ),
            r matches Some(ps) ==> {
                let m = policy_fields_of(policy_text@)->Some_0;
                ps@.len() == m.len() && forall|i: int|
                    0 <= i < m.len() ==> (#[trigger] ps@[i].table)@ == m[i].1
            },
    {
        let fields = match json_policy_fields(policy_text) {
            Some(f) => f,
            None => {
                return None;
            },
        };
        let ghost m = policy_fields_of(policy_text@)->Some_0;
        let mut out: Vec<Policy> = Vec::new();
        let n = fields.len();
        let mut i: usize = 0;
        while i < n
            invariant
                n == fields@.len(),
                policy_fields_of(policy_text@) == Some(m),
                m.len() == n,
                forall|j: int|
                    0 <= j < n ==> #[trigger] m[j] == (fields@[j].0@, fields@[j].1@, fields@[j].2@),
                0 <= i <= n,
                out@.len() == i,
                forall|j: int| 0 <= j < i ==> (#[trigger] out@[j].table)@ == m[j].1,
                forall|j: int|
                    0 <= j < i ==> query_admissible(assembled_query(#[trigger] m[j].0, m[j].2)),
            decreases n - i,
        {
            let mut query = String::new();
            query.append("select * from ");
            query.append(fields[i].0.as_str());
            query.append(" ");
            query.append(fields[i].2.as_str());
            query.append(";");
            proof {
                assert(query@ =~= assembled_query(m[i as int].0, m[i as int].2));
            }
            if !digit_runs_ok(query.as_str()) {
                proof {
                    assert(!query_admissible(assembled_query(m[i as int].0, m[i as int].2)));
                    assert(!all_queries_admissible(m)) by {
                        if all_queries_admissible(m) {
                            assert(query_admissible(assembled_query(m[i as int].0, m[i as int].2)));
                        }
                    }
                }
                return None;
            }
            let predicate = match parse_sql(query.as_str()) {
                Some(q) => q,
                None => {
                    proof {
                        assert(!query_admissible(assembled_query(m[i as int].0, m[i as int].2)));
                        assert(!all_queries_admissible(m)) by {
                            if all_queries_admissible(m) {
                                assert(query_admissible(assembled_query(m[i as int].0, m[i as int].2)));
                            }
                        }
                    }
                    return None;
                },
            };
            out.push(Policy { table: fields[i].1.clone(), predicate });
            i += 1;
        }
        proof {
            assert(all_queries_admissible(m));
        }
        Some(out)
    }
}

} // verus!
