//! Reading and rewriting a node's configuration text.  The TOML document is
//! parsed and re-serialized by the `toml` crate into a `serde_json::Value`
//! tree, which Verus sees as opaque; the contracts speak of the document
//! through named projections of its contents (`toml_doc`, `listen_strings`,
//! `value_str`, `toml_text`), and every step that reads or replaces a listen
//! address goes through the verified address logic.

use vstd::prelude::*;

use crate::address::{change_port_in_path, port_of_address, rewrite_address};
use crate::errors::AppError;
use crate::strutil::u16_to_string;
use crate::types::NodeConfig;

verus! {

use vstd::string::StringExecFns;

broadcast use vstd::string::group_string_axioms;

#[verifier::external_type_specification]
#[verifier::external_body]
pub struct ExValue(serde_json::Value);

/// The text of a string value, `None` for any other kind of value.
pub uninterp spec fn value_str(v: serde_json::Value) -> Option<Seq<char>>;

/// The entries of `<section>.listen`, each projected to its string text, or
/// `None` when the section or its listen array is absent.
pub uninterp spec fn listen_strings(v: serde_json::Value, section: Seq<char>) -> Option<
    Seq<Option<Seq<char>>>,
>;

/// The document a TOML text parses to, `None` when it does not parse.
pub uninterp spec fn toml_doc(s: Seq<char>) -> Option<serde_json::Value>;

/// The TOML serialization of a document, `None` when it cannot be rendered.
pub uninterp spec fn toml_text(v: serde_json::Value) -> Option<Seq<char>>;

/// A list of values projected to their string texts.
pub open spec fn value_strs(items: Seq<serde_json::Value>) -> Seq<Option<Seq<char>>> {
    items.map_values(|x: serde_json::Value| value_str(x))
}

proof fn lemma_value_strs_skip(s: Seq<serde_json::Value>, k: int)
    requires
        0 <= k <= s.len(),
    ensures
        value_strs(s.skip(k)) =~= value_strs(s).skip(k),
{
    let a = value_strs(s.skip(k));
    let b = value_strs(s).skip(k);
    assert forall|j: int| 0 <= j < a.len() implies a[j] == b[j] by {
        assert(s.skip(k)[j] == s[k + j]);
        assert(b[j] == value_strs(s)[k + j]);
    }
}

proof fn lemma_value_strs_push(s: Seq<serde_json::Value>, x: serde_json::Value)
    ensures
        value_strs(s.push(x)) =~= value_strs(s).push(value_str(x)),
{
    let a = value_strs(s.push(x));
    let b = value_strs(s).push(value_str(x));
    assert forall|j: int| 0 <= j < a.len() implies a[j] == b[j] by {
        if j < s.len() {
            assert(s.push(x)[j] == s[j]);
            assert(b[j] == value_strs(s)[j]);
        } else {
            assert(s.push(x)[j] == x);
        }
    }
}

/// Relies on toml::from_str deserializing a TOML document into a
/// serde_json::Value tree (deterministic in the text), and on
/// toml::de::Error::to_string for the message.
#[verifier::external_body]
fn toml_parse(text: &str) -> (r: Result<serde_json::Value, String>)
    ensures
        match r {
            Ok(v) => toml_doc(text@) == Some(v),
            Err(_) => toml_doc(text@) is None,
        },
{
    toml::from_str::<serde_json::Value>(text).map_err(|e| e.to_string())
}

/// Relies on toml::to_string serializing a serde_json::Value tree back to a
/// TOML document (deterministic in the value), and on
/// toml::ser::Error::to_string for the message.
#[verifier::external_body]
fn toml_to_string(v: &serde_json::Value) -> (r: Result<String, String>)
    ensures
        match r {
            Ok(s) => toml_text(*v) == Some(s@),
            Err(_) => toml_text(*v) is None,
        },
{
    toml::to_string(v).map_err(|e| e.to_string())
}

/// Relies on serde_json::Value::get and Value::as_array: clones the entries
/// of `<section>.listen` when that slot holds an array, so the returned
/// items carry exactly the document's listen contents.
#[verifier::external_body]
fn get_section_listen(v: &serde_json::Value, section: &str) -> (r: Option<
    Vec<serde_json::Value>,
>)
    ensures
        match r {
            Some(items) => listen_strings(*v, section@) == Some(value_strs(items@)),
            None => listen_strings(*v, section@) is None,
        },
{
    match v.get(section).and_then(|s| s.get("listen")).and_then(|l| l.as_array()) {
        Some(arr) => Some(arr.clone()),
        None => None,
    }
}

/// Relies on serde_json::Value::get_mut: replaces `<section>.listen` with the
/// given entries when that slot exists (it does whenever the section holds a
/// listen array), and leaves every other section's listen contents alone.
#[verifier::external_body]
fn set_section_listen(
    v: &mut serde_json::Value,
    section: &str,
    items: Vec<serde_json::Value>,
) -> (r: bool)
    ensures
        !r ==> *final(v) == *old(v),
        listen_strings(*old(v), section@) is Some ==> r,
        r ==> listen_strings(*final(v), section@) == Some(value_strs(items@)),
        r ==> forall|other: Seq<char>|
            other != section@ ==> listen_strings(*final(v), other) == listen_strings(
                *old(v),
                other,
            ),
{
    match v.get_mut(section).and_then(|s| s.get_mut("listen")) {
        Some(slot) => {
            *slot = serde_json::Value::Array(items);
            true
        },
        None => false,
    }
}

/// Relies on serde_json::Value::as_str: the text of a string value.
#[verifier::external_body]
fn value_as_string(v: &serde_json::Value) -> (r: Option<String>)
    ensures
        match r {
            Some(s) => value_str(*v) == Some(s@),
            None => value_str(*v) is None,
        },
{
    v.as_str().map(|s| s.to_string())
}

/// Relies on serde_json::Value::String: wraps text as a JSON string value.
#[verifier::external_body]
fn json_string_value(s: &str) -> (r: serde_json::Value)
    ensures
        value_str(r) == Some(s@),
{
    serde_json::Value::String(s.to_string())
}

/// Every string entry of the list rewrites under the new port.
pub open spec fn entries_rewritable(entries: Seq<Option<Seq<char>>>, p: Seq<char>) -> bool {
    forall|i: int|
        #![trigger entries[i]]
        0 <= i < entries.len() ==> (entries[i] matches Some(a) ==> rewrite_address(
            a,
            p,
        ) is Some)
}

/// The listen entries after a rewrite: each string entry carries its
/// rewritten address, each non-string entry is still not a string.
pub open spec fn rewritten_entries(entries: Seq<Option<Seq<char>>>, p: Seq<char>) -> Seq<
    Option<Seq<char>>,
> {
    entries.map_values(
        |e: Option<Seq<char>>|
            match e {
                Some(a) => rewrite_address(a, p),
                None => None,
            },
    )
}

/// One section's listen contents after `update_port`: every string entry
/// rewritten, an absent listen array untouched.
pub open spec fn listen_updated(
    pre: serde_json::Value,
    post: serde_json::Value,
    section: Seq<char>,
    p: Seq<char>,
) -> bool {
    match listen_strings(pre, section) {
        Some(entries) => entries_rewritable(entries, p) && listen_strings(post, section)
            == Some(rewritten_entries(entries, p)),
        None => listen_strings(post, section) == listen_strings(pre, section),
    }
}

/// Rewrites the port of every string entry of `<section>.listen` through the
/// verified address rewriter; entries that are not strings, sections without
/// a listen array, and every other section are left as they are.
pub fn update_port(config: &mut serde_json::Value, section: &str, new_port: &str) -> (r:
    Result<(), AppError>)
    ensures
        r is Ok <==> (match listen_strings(*old(config), section@) {
            Some(entries) => entries_rewritable(entries, new_port@),
            None => true,
        }),
        r matches Err(e) ==> e is InvalidInput && *final(config) == *old(config),
        r is Ok ==> listen_updated(*old(config), *final(config), section@, new_port@)
            && forall|other: Seq<char>|
            other != section@ ==> listen_strings(*final(config), other)
                == listen_strings(*old(config), other),
{
    let mut items = match get_section_listen(config, section) {
        Some(items) => items,
        None => {
            return Ok(());
        },
    };
    let ghost entries = value_strs(items@);
    let total = items.len();
    let mut out: Vec<serde_json::Value> = Vec::new();
    let mut done: usize = 0;
    while done < total
        invariant
            total == entries.len(),
            done + items.len() == total,
            done == out.len(),
            listen_strings(*old(config), section@) == Some(entries),
            *config == *old(config),
            value_strs(items@) =~= entries.skip(done as int),
            value_strs(out@) =~= rewritten_entries(entries, new_port@).take(done as int),
            entries_rewritable(entries.take(done as int), new_port@),
        decreases total - done,
    {
        let ghost items_before = items@;
        let it = items.remove(0);
        proof {
            assert(it == items_before[0]);
            assert(value_strs(items_before)[0] == value_str(it));
            assert(value_str(it) == entries.skip(done as int)[0]);
            assert(entries.skip(done as int)[0] == entries[done as int]);
            assert(items@ =~= items_before.skip(1));
            lemma_value_strs_skip(items_before, 1);
            assert(value_strs(items@) =~= value_strs(items_before).skip(1));
            assert(entries.skip(done as int).skip(1) =~= entries.skip(done + 1));
            assert(value_strs(items@) =~= entries.skip(done + 1));
        }
        let ghost out_before = out@;
        match value_as_string(&it) {
            Some(s) => {
                match change_port_in_path(s.as_str(), new_port) {
                    Ok(rewritten) => {
                        out.push(json_string_value(rewritten.as_str()));
                    },
                    Err(e) => {
                        proof {
                            assert(entries[done as int] matches Some(a)
                                && rewrite_address(a, new_port@) is None);
                            assert(!entries_rewritable(entries, new_port@));
                        }
                        return Err(e);
                    },
                }
            },
            None => {
                out.push(it);
            },
        }
        proof {
            assert(out@ =~= out_before.push(out@.last()));
            lemma_value_strs_push(out_before, out@.last());
            assert(value_strs(out@) =~= value_strs(out_before).push(
                value_str(out@.last()),
            ));
            assert(value_str(out@.last()) == rewritten_entries(entries, new_port@)[
                done as int]);
            assert(value_strs(out@) =~= rewritten_entries(entries, new_port@).take(
                done + 1,
            ));
            assert(entries_rewritable(entries.take(done + 1), new_port@));
        }
        done = done + 1;
    }
    proof {
        assert(entries.take(total as int) =~= entries);
        assert(rewritten_entries(entries, new_port@).take(total as int)
            =~= rewritten_entries(entries, new_port@));
        assert(value_strs(out@) =~= rewritten_entries(entries, new_port@));
    }
    set_section_listen(config, section, out);
    Ok(())
}

/// Rewrites the `server` and `swarm` listen-address ports of a
/// configuration text and returns the re-serialized document, whose listen
/// contents carry the new ports and whose other sections are preserved.
pub fn update_config_text(text: &str, server_port: u16, swarm_port: u16) -> (r: Result<
    String,
    AppError,
>)
    ensures
        r matches Err(e) ==> e is TomlError || e is InvalidInput,
        toml_doc(text@) is None ==> (r matches Err(e) && e is TomlError),
        toml_doc(text@) matches Some(dv) && !(match listen_strings(dv, "swarm"@) {
            Some(entries) => entries_rewritable(
                entries,
                crate::strutil::dec_rep(swarm_port as int),
            ),
            None => true,
        } && match listen_strings(dv, "server"@) {
            Some(entries) => entries_rewritable(
                entries,
                crate::strutil::dec_rep(server_port as int),
            ),
            None => true,
        }) ==> (r matches Err(e) && e is InvalidInput),
        r matches Ok(out_text) ==> (toml_doc(text@) matches Some(dv) && exists|
            d: serde_json::Value,
        |
            {
                &&& #[trigger] toml_text(d) == Some(out_text@)
                &&& listen_updated(dv, d, "swarm"@, crate::strutil::dec_rep(
                    swarm_port as int,
                ))
                &&& listen_updated(dv, d, "server"@, crate::strutil::dec_rep(
                    server_port as int,
                ))
                &&& forall|other: Seq<char>|
                    other != "swarm"@ && other != "server"@ ==> listen_strings(d, other)
                        == listen_strings(dv, other)
            }),
        r is Err ==> (toml_doc(text@) matches Some(dv) ==> ((match listen_strings(
            dv,
            "swarm"@,
        ) {
            Some(entries) => entries_rewritable(
                entries,
                crate::strutil::dec_rep(swarm_port as int),
            ),
            None => true,
        } && match listen_strings(dv, "server"@) {
            Some(entries) => entries_rewritable(
                entries,
                crate::strutil::dec_rep(server_port as int),
            ),
            None => true,
        }) ==> exists|d: serde_json::Value|
            {
                &&& #[trigger] toml_text(d) is None
                &&& listen_updated(dv, d, "swarm"@, crate::strutil::dec_rep(
                    swarm_port as int,
                ))
                &&& listen_updated(dv, d, "server"@, crate::strutil::dec_rep(
                    server_port as int,
                ))
            })),
{
    proof {
        reveal_strlit("server");
        reveal_strlit("swarm");
        assert("server"@.len() == 6);
        assert("swarm"@.len() == 5);
        assert("server"@ != "swarm"@);
    }
    let mut config = match toml_parse(text) {
        Ok(v) => v,
        Err(m) => {
            return Err(AppError::TomlError(m));
        },
    };
    let ghost doc0 = config;
    let swarm_text = u16_to_string(swarm_port);
    match update_port(&mut config, "swarm", swarm_text.as_str()) {
        Ok(_) => (),
        Err(e) => {
            return Err(e);
        },
    }
    let ghost doc1 = config;
    let server_text = u16_to_string(server_port);
    match update_port(&mut config, "server", server_text.as_str()) {
        Ok(_) => (),
        Err(e) => {
            proof {
                assert(listen_strings(doc1, "server"@) == listen_strings(
                    doc0,
                    "server"@,
                ));
            }
            return Err(e);
        },
    }
    proof {
        assert(listen_strings(doc1, "server"@) == listen_strings(doc0, "server"@));
        assert(listen_strings(config, "swarm"@) == listen_strings(doc1, "swarm"@));
        assert(listen_updated(doc0, config, "swarm"@, swarm_text@));
        assert(listen_updated(doc0, config, "server"@, server_text@));
        assert forall|other: Seq<char>|
            other != "swarm"@ && other != "server"@ implies listen_strings(
            config,
            other,
        ) == listen_strings(doc0, other) by {
            assert(listen_strings(doc1, other) == listen_strings(doc0, other));
            assert(listen_strings(config, other) == listen_strings(doc1, other));
        }
    }
    match toml_to_string(&config) {
        Ok(s) => {
            proof {
                assert(toml_text(config) == Some(s@));
            }
            Ok(s)
        },
        Err(m) => {
            proof {
                assert(toml_text(config) is None);
            }
            Err(AppError::TomlError(m))
        },
    }
}

/// The first listen entry of a section, when the section holds a non-empty
/// listen array whose first entry is a string.
pub open spec fn first_listen_entry(doc: serde_json::Value, section: Seq<char>) -> Option<
    Seq<char>,
> {
    match listen_strings(doc, section) {
        Some(entries) => if entries.len() > 0 {
            entries[0]
        } else {
            None
        },
        None => None,
    }
}

fn section_first_listen(config: &serde_json::Value, section: &str) -> (r: Result<
    String,
    AppError,
>)
    ensures
        match r {
            Ok(s) => first_listen_entry(*config, section@) == Some(s@),
            Err(e) => e is Custom && first_listen_entry(*config, section@) is None,
        },
{
    let mut items = match get_section_listen(config, section) {
        Some(items) => items,
        None => {
            return Err(
                AppError::Custom(
                    String::from_str("Failed to extract listen address: ").concat(
                        section,
                    ),
                ),
            );
        },
    };
    let ghost entries = value_strs(items@);
    if items.len() == 0 {
        return Err(
            AppError::Custom(
                String::from_str("Failed to extract listen address: ").concat(section),
            ),
        );
    }
    let first = items.remove(0);
    proof {
        assert(value_strs(items@.insert(0, first))[0] == value_str(first));
        assert(value_str(first) == entries[0]);
    }
    match value_as_string(&first) {
        Some(s) => Ok(s),
        None => Err(
            AppError::Custom(
                String::from_str("Failed to extract listen address: ").concat(section),
            ),
        ),
    }
}

/// Reads the server and swarm TCP ports out of a configuration text: the
/// first listen address of each section, parsed by the verified address
/// logic.  Succeeds exactly when the text parses, both sections carry a
/// string first listen entry, and each of those addresses has a TCP port.
pub fn get_node_ports(text: &str) -> (r: Result<NodeConfig, AppError>)
    ensures
        match r {
            Ok(c) => toml_doc(text@) matches Some(dv) && (first_listen_entry(
                dv,
                "server"@,
            ) matches Some(sa) && crate::address::address_tcp_port(sa) == Some(
                c.server_port as int,
            )) && (first_listen_entry(dv, "swarm"@) matches Some(wa)
                && crate::address::address_tcp_port(wa) == Some(c.swarm_port as int)),
            Err(e) => {
                &&& e is TomlError || e is Custom || e is InvalidInput
                &&& toml_doc(text@) is None ==> e is TomlError
                &&& toml_doc(text@) matches Some(dv) ==> {
                    ||| first_listen_entry(dv, "server"@) is None
                    ||| first_listen_entry(dv, "swarm"@) is None
                    ||| (first_listen_entry(dv, "server"@) matches Some(sa)
                        && crate::address::address_tcp_port(sa) is None)
                    ||| (first_listen_entry(dv, "swarm"@) matches Some(wa)
                        && crate::address::address_tcp_port(wa) is None)
                }
            },
        },
{
    let config = match toml_parse(text) {
        Ok(v) => v,
        Err(m) => {
            return Err(AppError::TomlError(m));
        },
    };
    let server_addr = match section_first_listen(&config, "server") {
        Ok(s) => s,
        Err(e) => {
            return Err(e);
        },
    };
    let swarm_addr = match section_first_listen(&config, "swarm") {
        Ok(s) => s,
        Err(e) => {
            return Err(e);
        },
    };
    let server_port = match port_of_address(server_addr.as_str()) {
        Ok(p) => p,
        Err(e) => {
            return Err(e);
        },
    };
    let swarm_port = match port_of_address(swarm_addr.as_str()) {
        Ok(p) => p,
        Err(e) => {
            return Err(e);
        },
    };
    Ok(NodeConfig { server_port, swarm_port })
}

} // verus!
