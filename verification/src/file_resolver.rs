//! The ownership-marked file registry.
//!
//! Each managed entry is a plain-text file named after its domain. Its first
//! line carries a caller-defined marker (e.g. `# managed by myapp`) and, for
//! transient entries, the creator's PID, enabling safe ownership checks and
//! orphan cleanup. This module holds the registry value itself, the exact
//! on-disk content format, and the per-file ownership and cleanup decisions.

use vstd::prelude::*;

use crate::config::{ConfigView, ResolverConfig};
use crate::text::{
    contains_seq, dec_digits, find_pid, pid_of, push_char, push_dec_u16, push_dec_u32,
    str_contains, to_uppercase_str, upper_of,
};

verus! {

/// The fields of a [`FileResolver`], seen mathematically.
pub ghost struct ResolverView {
    pub dir: Seq<char>,
    pub marker: Seq<char>,
}

/// Manages resolver override files under a registry directory.
///
/// An entry file is considered owned by this registry exactly when its
/// content contains `marker` as a substring; only owned files are ever
/// removed. The marker is fixed for the registry's lifetime.
pub struct FileResolver {
    /// The registry directory path.
    pub resolver_dir: String,
    /// The ownership marker, e.g. `"# managed by myapp"`.
    pub marker: String,
}

impl View for FileResolver {
    type V = ResolverView;

    open spec fn view(&self) -> ResolverView {
        ResolverView { dir: self.resolver_dir@, marker: self.marker@ }
    }
}

/// The lines below the marker line: nameserver, port, and search order, each
/// newline-terminated (the leading newline ends the marker line).
pub open spec fn body_lines(c: ConfigView) -> Seq<char> {
    "\nnameserver "@ + c.nameserver + "\nport "@ + dec_digits(c.port as nat) + "\nsearch_order "@
        + dec_digits(c.search_order as nat) + "\n"@
}

/// Content of a permanent entry: the bare marker line, then the body.
pub open spec fn permanent_content(marker: Seq<char>, c: ConfigView) -> Seq<char> {
    marker + body_lines(c)
}

/// Content of a transient entry: the marker line with the creator's PID,
/// then the body.
pub open spec fn transient_content(marker: Seq<char>, pid: u32, c: ConfigView) -> Seq<char> {
    marker + " (pid="@ + dec_digits(pid as nat) + ")"@ + body_lines(c)
}

/// A file's content marks it as owned by a registry with this marker.
pub open spec fn owned_content(content: Seq<char>, marker: Seq<char>) -> bool {
    contains_seq(content, marker)
}

/// A marker that keeps to one line: no embedded newline and no trailing
/// carriage return (either would change how the marker line is read back
/// when a file's PID annotation is parsed).
pub open spec fn marker_wf(marker: Seq<char>) -> bool {
    (forall|j: int| 0 <= j < marker.len() ==> marker[j] != '\n') && (marker.len() > 0
        ==> marker.last() != '\r')
}

/// The creator PID of an owned, transient file: `None` when the file is not
/// owned, carries no PID annotation, or its annotation does not parse.
pub open spec fn orphan_candidate_pid(content: Seq<char>, marker: Seq<char>) -> Option<u32> {
    if owned_content(content, marker) {
        pid_of(content, marker)
    } else {
        None
    }
}

impl FileResolver {
    /// Creates a registry over the default directory whose marker is derived
    /// from an application prefix: `# managed by <prefix>`.
    pub fn new(prefix: &str) -> (r: Self)
        ensures
            r@.marker == "# managed by "@ + prefix@,
            r@.dir == "/etc/resolver"@,
    {
        let mut marker = String::from_str("# managed by ");
        marker.append(prefix);
        FileResolver { resolver_dir: String::from_str("/etc/resolver"), marker }
    }

    /// Creates a registry over the default directory with an exact marker
    /// string (written as-is).
    pub fn with_marker(marker: &str) -> (r: Self)
        ensures
            r@.marker == marker@,
            r@.dir == "/etc/resolver"@,
    {
        FileResolver { resolver_dir: String::from_str("/etc/resolver"), marker: marker.to_owned() }
    }

    /// Overrides the registry directory (useful for testing and embedding).
    pub fn dir(self, resolver_dir: &str) -> (r: Self)
        ensures
            r@.dir == resolver_dir@,
            r@.marker == self@.marker,
    {
        FileResolver { resolver_dir: resolver_dir.to_owned(), marker: self.marker }
    }

    /// Returns the registry directory path.
    pub fn resolver_dir(&self) -> (r: &str)
        ensures
            r@ == self@.dir,
    {
        self.resolver_dir.as_str()
    }

    /// Returns the marker string used to identify owned files.
    pub fn marker(&self) -> (r: &str)
        ensures
            r@ == self@.marker,
    {
        self.marker.as_str()
    }

    /// The path of the entry file for `domain`: `<dir>/<domain>`.
    pub fn resolver_path(&self, domain: &str) -> (r: String)
        ensures
            r@ == self@.dir + "/"@ + domain@,
    {
        let mut p = self.resolver_dir.clone();
        p.append("/");
        p.append(domain);
        p
    }

    /// Renders the content of a transient entry for `config`, tagged with
    /// the creating process's `pid`.
    pub fn render_transient(&self, config: &ResolverConfig, pid: u32) -> (r: String)
        ensures
            r@ == transient_content(self@.marker, pid, config@),
    {
        let mut out = self.marker.clone();
        out.append(" (pid=");
        push_dec_u32(&mut out, pid);
        out.append(")");
        self.push_body(&mut out, config);
        proof {
            assert(out@ =~= transient_content(self@.marker, pid, config@));
        }
        out
    }

    /// Renders the content of a permanent entry for `config` (no PID, so it
    /// is never swept by orphan cleanup).
    pub fn render_permanent(&self, config: &ResolverConfig) -> (r: String)
        ensures
            r@ == permanent_content(self@.marker, config@),
    {
        let mut out = self.marker.clone();
        self.push_body(&mut out, config);
        proof {
            assert(out@ =~= permanent_content(self@.marker, config@));
        }
        out
    }

    /// Appends the nameserver, port, and search-order lines.
    fn push_body(&self, out: &mut String, config: &ResolverConfig)
        ensures
            final(out)@ == old(out)@ + body_lines(config@),
    {
        out.append("\nnameserver ");
        out.append(config.nameserver.as_str());
        out.append("\nport ");
        push_dec_u16(out, config.port);
        out.append("\nsearch_order ");
        push_dec_u32(out, config.search_order);
        out.append("\n");
        proof {
            assert(final(out)@ =~= old(out)@ + body_lines(config@));
        }
    }

    /// Whether a file with this content is owned by this registry: the
    /// content contains the marker as a substring.
    pub fn is_managed(&self, content: &str) -> (r: bool)
        ensures
            r == owned_content(content@, self@.marker),
    {
        str_contains(content, self.marker.as_str())
    }

    /// Extracts the creator PID from a file content: the `(pid=<N>)`
    /// annotation of the first line starting with the marker.
    pub fn extract_pid(&self, content: &str) -> (r: Option<u32>)
        ensures
            r == pid_of(content@, self@.marker),
    {
        find_pid(content, self.marker.as_str())
    }

    /// The PID whose liveness decides whether a file with this content is
    /// swept by orphan cleanup: `None` when the file is unowned or permanent
    /// (and so never swept).
    pub fn cleanup_pid(&self, content: &str) -> (r: Option<u32>)
        ensures
            r == orphan_candidate_pid(content@, self@.marker),
    {
        if self.is_managed(content) {
            self.extract_pid(content)
        } else {
            None
        }
    }
}

/// A hyphen becomes an underscore; every other character stays.
pub open spec fn underscore_char(c: char) -> char {
    if c == '-' {
        '_'
    } else {
        c
    }
}

/// `s` with every hyphen replaced by an underscore.
pub open spec fn dash_to_underscore(s: Seq<char>) -> Seq<char> {
    s.map_values(|c: char| underscore_char(c))
}

/// Converts a prefix like `"my-app"` to an environment-variable prefix
/// `"MY_APP"`: uppercases and replaces `-` with `_`.
pub fn to_env_prefix(prefix: &str) -> (r: String)
    ensures
        r@ == dash_to_underscore(upper_of(prefix@)),
{
    let upper = to_uppercase_str(prefix);
    let u = upper.as_str();
    let len = u.unicode_len();
    let mut out = String::new();
    let mut i: usize = 0;
    while i < len
        invariant
            i <= len,
            len == u@.len(),
            u@ == upper_of(prefix@),
            out@ == dash_to_underscore(u@.take(i as int)),
        decreases len - i,
    {
        let c = u.get_char(i);
        if c == '-' {
            push_char(&mut out, '_');
        } else {
            push_char(&mut out, c);
        }
        proof {
            assert(out@ =~= dash_to_underscore(u@.take(i + 1)));
        }
        i = i + 1;
    }
    proof {
        assert(u@.take(len as int) =~= u@);
    }
    out
}

} // verus!
