//! Proved laws of the registry: idempotent registration and unregistration,
//! ownership enforcement, exactness of the orphan sweep, and permanent-entry
//! immunity. Each law is stated over the registry's mathematical model (a map
//! from domain to file content) that the executable operations are specified
//! against.

use vstd::prelude::*;

use crate::config::ConfigView;
use crate::dir_state::{
    after_cleanup, after_register, after_register_permanent, after_unregister, is_orphan,
    registered, unregister_allowed,
};
use crate::file_resolver::{
    body_lines, marker_wf, owned_content, permanent_content, transient_content,
};
use crate::text::{
    contains_seq, dec_digits, first_nl, is_space_char, lemma_dec_digits, lemma_first_nl,
    lemma_parse_dec_digits, parse_pid_rest, parse_u32, pid_of, pid_of_lines, split_lines, strip_cr,
    trim, trim_back, trim_front,
};

verus! {

/// A freshly rendered entry, transient or permanent, is owned: its content
/// starts with the marker.
pub proof fn lemma_rendered_owned(marker: Seq<char>, pid: u32, c: ConfigView)
    ensures
        owned_content(transient_content(marker, pid, c), marker),
        owned_content(permanent_content(marker, c), marker),
{
    let t = transient_content(marker, pid, c);
    let p = permanent_content(marker, c);
    assert(contains_seq(t, marker)) by {
        assert(marker =~= t.subrange(0, 0 + marker.len() as int));
    }
    assert(contains_seq(p, marker)) by {
        assert(marker =~= p.subrange(0, 0 + marker.len() as int));
    }
}

/// Idempotent registration: registering the same config from the same
/// process twice leaves exactly the state of a single registration.
pub proof fn lemma_register_idempotent(
    state: Map<Seq<char>, Seq<char>>,
    marker: Seq<char>,
    pid: u32,
    c: ConfigView,
)
    ensures
        after_register(after_register(state, marker, pid, c), marker, pid, c) == after_register(
            state,
            marker,
            pid,
            c,
        ),
{
    assert(after_register(after_register(state, marker, pid, c), marker, pid, c)
        =~= after_register(state, marker, pid, c));
}

/// Idempotent permanent registration.
pub proof fn lemma_register_permanent_idempotent(
    state: Map<Seq<char>, Seq<char>>,
    marker: Seq<char>,
    c: ConfigView,
)
    ensures
        after_register_permanent(after_register_permanent(state, marker, c), marker, c)
            == after_register_permanent(state, marker, c),
{
    assert(after_register_permanent(after_register_permanent(state, marker, c), marker, c)
        =~= after_register_permanent(state, marker, c));
}

/// After a registration the domain is registered.
pub proof fn lemma_register_then_registered(
    state: Map<Seq<char>, Seq<char>>,
    marker: Seq<char>,
    pid: u32,
    c: ConfigView,
)
    ensures
        registered(after_register(state, marker, pid, c), marker, c.domain),
        registered(after_register_permanent(state, marker, c), marker, c.domain),
{
    lemma_rendered_owned(marker, pid, c);
}

/// Idempotent unregistration: a second unregistration of the same domain
/// changes nothing, and it is allowed whenever the first one was (in
/// particular, after a successful unregistration a repeat never errors).
pub proof fn lemma_unregister_idempotent(
    state: Map<Seq<char>, Seq<char>>,
    marker: Seq<char>,
    domain: Seq<char>,
)
    ensures
        after_unregister(after_unregister(state, marker, domain), marker, domain)
            == after_unregister(state, marker, domain),
        unregister_allowed(state, marker, domain) ==> unregister_allowed(
            after_unregister(state, marker, domain),
            marker,
            domain,
        ),
{
}

/// Ownership enforcement: a file whose content lacks the marker is never
/// removed. Unregistration refuses it (not managed) and leaves the state
/// untouched, and no orphan sweep removes or alters it.
pub proof fn lemma_ownership_enforcement(
    state: Map<Seq<char>, Seq<char>>,
    marker: Seq<char>,
    domain: Seq<char>,
    live: Seq<u32>,
)
    requires
        state.contains_key(domain),
        !owned_content(state[domain], marker),
    ensures
        !unregister_allowed(state, marker, domain),
        after_unregister(state, marker, domain) == state,
        after_cleanup(state, marker, live).contains_key(domain),
        after_cleanup(state, marker, live)[domain] == state[domain],
{
}

/// The orphan sweep is exact: a domain survives it exactly when its file is
/// not an orphan, and a surviving file keeps its content.
pub proof fn lemma_cleanup_exact(
    state: Map<Seq<char>, Seq<char>>,
    marker: Seq<char>,
    live: Seq<u32>,
    domain: Seq<char>,
)
    ensures
        after_cleanup(state, marker, live).contains_key(domain) <==> (state.contains_key(domain)
            && !is_orphan(state[domain], marker, live)),
        after_cleanup(state, marker, live).contains_key(domain) ==> after_cleanup(
            state,
            marker,
            live,
        )[domain] == state[domain],
{
}

/// The PID annotation of a content whose first line is `first` (which must
/// contain no newline and not end in a carriage return) is read from what
/// follows the marker on that line.
proof fn lemma_pid_of_single_line(first: Seq<char>, rest: Seq<char>, marker: Seq<char>)
    requires
        forall|j: int| 0 <= j < first.len() ==> first[j] != '\n',
        first.len() > 0 ==> first.last() != '\r',
        rest.len() > 0,
        rest[0] == '\n',
        marker.is_prefix_of(first),
    ensures
        pid_of(first + rest, marker) == parse_pid_rest(first.skip(marker.len() as int)),
{
    let content = first + rest;
    lemma_first_nl(content);
    let f = first_nl(content);
    assert(content[first.len() as int] == '\n');
    if f == -1 {
        assert(content[first.len() as int] != '\n');
    }
    if f < first.len() {
        assert(content[f] == first[f]);
    }
    if f > first.len() {
        assert(content[first.len() as int] != '\n');
    }
    assert(f == first.len());
    assert(content.take(f) =~= first);
    assert(strip_cr(first) == first);
    assert(split_lines(content) =~= seq![first] + split_lines(content.skip(f + 1)));
    let lines = split_lines(content);
    assert(lines[0] == first);
    assert(pid_of_lines(lines, marker) == parse_pid_rest(first.skip(marker.len() as int)));
}

/// A permanent entry carries no PID annotation: its marker line is the bare
/// marker, so nothing follows it to parse.
pub proof fn lemma_permanent_no_pid(marker: Seq<char>, c: ConfigView)
    requires
        marker_wf(marker),
    ensures
        pid_of(permanent_content(marker, c), marker) is None,
{
    reveal_strlit("\nnameserver ");
    let body = body_lines(c);
    assert(body[0] == '\n');
    assert(body.len() > 0);
    assert(marker.is_prefix_of(marker)) by {
        assert(marker =~= marker.subrange(0, marker.len() as int));
    }
    lemma_pid_of_single_line(marker, body, marker);
    let rest = marker.skip(marker.len() as int);
    assert(rest =~= Seq::<char>::empty());
    assert(trim_front(rest) =~= Seq::<char>::empty());
    assert(trim_back(trim_front(rest)) =~= Seq::<char>::empty());
    assert(trim(rest).len() == 0);
    assert(parse_pid_rest(rest) is None);
}

/// A transient entry's PID annotation reads back exactly the PID it was
/// rendered with.
pub proof fn lemma_transient_pid(marker: Seq<char>, pid: u32, c: ConfigView)
    requires
        marker_wf(marker),
    ensures
        pid_of(transient_content(marker, pid, c), marker) == Some(pid),
{
    reveal_strlit(" (pid=");
    reveal_strlit(")");
    reveal_strlit("\nnameserver ");
    let d = dec_digits(pid as nat);
    lemma_dec_digits(pid as nat);
    lemma_parse_dec_digits(pid);
    let mid = seq![' ', '(', 'p', 'i', 'd', '='];
    assert(" (pid="@ =~= mid);
    assert(")"@ =~= seq![')']);
    let first = marker + " (pid="@ + d + ")"@;
    let body = body_lines(c);
    assert(transient_content(marker, pid, c) == first + body);
    assert(body[0] == '\n');
    assert(body.len() > 0);
    let mlen = marker.len() as int;
    assert forall|j: int| 0 <= j < first.len() implies first[j] != '\n' by {
        if j < mlen {
            assert(first[j] == marker[j]);
        } else if j < mlen + 6 {
            assert(first[j] == mid[j - mlen]);
        } else if j < mlen + 6 + d.len() {
            assert(first[j] == d[j - mlen - 6]);
            assert(crate::text::is_digit_char(d[j - mlen - 6]));
        } else {
            assert(first[j] == ')');
        }
    }
    assert(first.last() == ')');
    assert(marker.is_prefix_of(first)) by {
        assert(marker =~= first.subrange(0, mlen));
    }
    lemma_pid_of_single_line(first, body, marker);
    let r0 = first.skip(mlen);
    assert(r0 =~= mid + d + seq![')']);
    let s1 = r0.skip(1);
    assert(s1 =~= seq!['(', 'p', 'i', 'd', '='] + d + seq![')']);
    assert(r0[0] == ' ' && is_space_char(r0[0]));
    assert(trim_front(r0) == trim_front(s1));
    assert(s1[0] == '(' && !is_space_char(s1[0]));
    assert(trim_front(s1) == s1);
    assert(s1.last() == ')' && !is_space_char(s1.last()));
    assert(trim_back(s1) == s1);
    assert(trim(r0) == s1);
    assert(s1.len() == 6 + d.len());
    assert(s1[0] == '(' && s1[1] == 'p' && s1[2] == 'i' && s1[3] == 'd' && s1[4] == '=');
    assert(s1.subrange(5, s1.len() - 1) =~= d);
    assert(parse_u32(d) == Some(pid));
    assert(parse_pid_rest(r0) == Some(pid));
}

/// A transient entry is an orphan exactly when its creator PID is not live.
pub proof fn lemma_transient_orphan(marker: Seq<char>, pid: u32, c: ConfigView, live: Seq<u32>)
    requires
        marker_wf(marker),
    ensures
        is_orphan(transient_content(marker, pid, c), marker, live) == !live.contains(pid),
{
    lemma_rendered_owned(marker, pid, c);
    lemma_transient_pid(marker, pid, c);
}

/// A transient registration is swept exactly by its creator's death: if the
/// PID is not live the sweep removes the domain's file, and if it is live the
/// file survives with its content untouched.
pub proof fn lemma_transient_sweep(
    state: Map<Seq<char>, Seq<char>>,
    marker: Seq<char>,
    pid: u32,
    c: ConfigView,
    live: Seq<u32>,
)
    requires
        marker_wf(marker),
    ensures
        !live.contains(pid) ==> !after_cleanup(
            after_register(state, marker, pid, c),
            marker,
            live,
        ).contains_key(c.domain),
        live.contains(pid) ==> after_cleanup(
            after_register(state, marker, pid, c),
            marker,
            live,
        ).contains_key(c.domain) && after_cleanup(
            after_register(state, marker, pid, c),
            marker,
            live,
        )[c.domain] == transient_content(marker, pid, c),
{
    lemma_transient_orphan(marker, pid, c, live);
}

/// Permanent-entry immunity: after a permanent registration, no orphan sweep
/// removes the domain's file, whatever PIDs are live.
pub proof fn lemma_permanent_immune(
    state: Map<Seq<char>, Seq<char>>,
    marker: Seq<char>,
    c: ConfigView,
    live: Seq<u32>,
)
    requires
        marker_wf(marker),
    ensures
        after_cleanup(after_register_permanent(state, marker, c), marker, live).contains_key(
            c.domain,
        ),
        after_cleanup(after_register_permanent(state, marker, c), marker, live)[c.domain]
            == permanent_content(marker, c),
{
    lemma_permanent_no_pid(marker, c);
}

} // verus!
