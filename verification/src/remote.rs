use vstd::prelude::*;
use vstd::string::StrSliceExecFns;
use vstd::string::StringExecFns;

use crate::agent::{Agent, AgentSource, SourceV};
use crate::errors::AgentError;
use crate::paths::{
    after_last_slash, is_abs, path_is_absolute, segments_of, split_segments, str_eq,
    tail_after_last_slash,
};

verus! {

/// What `url::Url::parse` extracts from a string: nothing when the string
/// is not an absolute URL; otherwise the URL's host (absent for URLs that
/// carry none) and its path. Both depend on the input characters alone.
pub uninterp spec fn url_parts(s: Seq<char>) -> Option<(Option<Seq<char>>, Seq<char>)>;

/// Relies on url::Url::parse to split a string into an URL, and on
/// Url::host_str and Url::path to read the host and path back out.
/// Fails exactly when the string cannot be parsed as an absolute URL.
#[verifier::external_body]
fn parse_url_parts(s: &str) -> (r: Option<(Option<String>, String)>)
    ensures
        r is Some <==> url_parts(s@) is Some,
        r matches Some(p) ==> {
            let q = url_parts(s@)->Some_0;
            &&& (p.0 matches Some(h) ==> q.0 == Some(h@))
            &&& (p.0 is None ==> q.0 is None)
            &&& q.1 == p.1@
        },
{
    match url::Url::parse(s) {
        Ok(u) => Some((u.host_str().map(|h| h.to_string()), u.path().to_string())),
        Err(_) => None,
    }
}

/// The host that marks a reference as remote-managed.
pub open spec fn is_remote_host(h: Option<Seq<char>>) -> bool {
    h == Some("github.com"@)
}

/// A path references a single file when its nonempty segments read
/// owner / repo / "blob" / branch / file..., so at least five of them
/// with the marker third.
pub open spec fn is_file_reference(path: Seq<char>) -> bool {
    let segs = segments_of(path);
    segs.len() >= 5 && segs[2] == "blob"@
}

/// The agent name a parsed reference yields: the final path segment for a
/// valid remote file reference; for other hosts, the part of the path
/// after its last '/' (the path must be rooted); nothing otherwise.
pub open spec fn name_from_parts(host: Option<Seq<char>>, path: Seq<char>) -> Option<Seq<char>> {
    if is_remote_host(host) {
        if is_file_reference(path) {
            Some(segments_of(path).last())
        } else {
            None
        }
    } else {
        if is_abs(path) {
            Some(after_last_slash(path))
        } else {
            None
        }
    }
}

impl Agent {
    /// Builds a remote agent from a URL. Only references to a single file
    /// are accepted on the remote host; a repository-root reference is
    /// rejected with a hint to supply a file-level link. The agent is
    /// named after the reference's final path segment.
    pub fn from_url(url: &str) -> (r: Result<Agent, AgentError>)
        ensures
            match r {
                Ok(a) => url_parts(url@) matches Some(parts) && name_from_parts(parts.0, parts.1)
                    == Some(a@.name) && a@.source == SourceV::GitHub(url@) && a@.enabled,
                Err(e) => (e matches AgentError::InvalidReference(_)) && (url_parts(url@) is None
                    || (url_parts(url@) matches Some(parts) && name_from_parts(
                    parts.0,
                    parts.1,
                ) is None)),
            },
    {
        match parse_url_parts(url) {
            None => Err(AgentError::InvalidReference(String::from_str("Invalid URL"))),
            Some((host, path)) => {
                let remote = match &host {
                    Some(h) => str_eq(h.as_str(), "github.com"),
                    None => false,
                };
                if remote {
                    let segs = split_segments(path.as_str());
                    if segs.len() >= 5 && str_eq(segs[2].as_str(), "blob") {
                        let name = segs[segs.len() - 1].clone();
                        proof {
                            assert(name@ == segments_of(path@).last());
                        }
                        Ok(
                            Agent {
                                name,
                                source: AgentSource::GitHub(String::from_str(url)),
                                enabled: true,
                            },
                        )
                    } else {
                        Err(
                            AgentError::InvalidReference(
                                String::from_str(
                                    "Only direct file links are supported. Please provide a URL like:\nhttps://github.com/user/repo/blob/main/agent.md",
                                ),
                            ),
                        )
                    }
                } else {
                    if path_is_absolute(path.as_str()) {
                        let name = tail_after_last_slash(path.as_str());
                        Ok(
                            Agent {
                                name,
                                source: AgentSource::GitHub(String::from_str(url)),
                                enabled: true,
                            },
                        )
                    } else {
                        Err(AgentError::InvalidReference(String::from_str("Invalid URL")))
                    }
                }
            },
        }
    }
}

/// The segments joined back with '/' between them.
pub open spec fn join_slash(segs: Seq<Seq<char>>) -> Seq<char>
    decreases segs.len(),
{
    if segs.len() == 0 {
        Seq::empty()
    } else if segs.len() == 1 {
        segs[0]
    } else {
        segs[0] + "/"@ + join_slash(segs.drop_first())
    }
}

pub proof fn lemma_join_slash_push(segs: Seq<Seq<char>>, x: Seq<char>)
    requires
        segs.len() > 0,
    ensures
        join_slash(segs.push(x)) == join_slash(segs) + "/"@ + x,
    decreases segs.len(),
{
    if segs.len() == 1 {
        assert(segs.push(x).drop_first() =~= seq![x]);
        assert(segs.push(x)[0] == segs[0]);
        assert(join_slash(seq![x]) == x);
        assert(join_slash(segs.push(x)) =~= segs[0] + "/"@ + x);
    } else {
        assert(segs.push(x).drop_first() =~= segs.drop_first().push(x));
        lemma_join_slash_push(segs.drop_first(), x);
        assert(join_slash(segs.push(x)) =~= join_slash(segs) + "/"@ + x);
    }
}

/// The direct-content URL for a valid remote file reference whose parsed
/// path is `path`: host replaced by the raw-content host, the file marker
/// dropped, so owner / repo / branch / file....
pub open spec fn raw_url_of(path: Seq<char>) -> Seq<char> {
    let segs = segments_of(path);
    "https://raw.githubusercontent.com/"@ + segs[0] + "/"@ + segs[1] + "/"@ + segs[3] + "/"@
        + join_slash(segs.skip(4))
}

/// A reference that a fetch plan accepts: it parses, lives on the remote
/// host, and points at a single file.
pub open spec fn fetchable(u: Seq<char>) -> bool {
    url_parts(u) matches Some(p) && is_remote_host(p.0) && is_file_reference(p.1)
}

/// The parsed path of a reference that parses.
pub open spec fn parts_path(u: Seq<char>) -> Seq<char> {
    url_parts(u)->Some_0.1
}

/// What a fetch must do for one remote reference: get `content_url` and
/// write the bytes to `dest_path`, a file named `filename` under the
/// managed source directory.
pub struct FetchPlan {
    pub content_url: String,
    pub dest_path: String,
    pub filename: String,
}

/// Plans the fetch of a remote reference into `target_dir`: validates the
/// reference, converts it to a direct-content URL, and names the
/// destination file after the reference's final path segment.
pub fn plan_fetch(url: &str, target_dir: &str) -> (r: Result<FetchPlan, AgentError>)
    ensures
        match r {
            Ok(plan) => url_parts(url@) matches Some(parts) && is_remote_host(parts.0)
                && is_file_reference(parts.1) && plan.content_url@ == raw_url_of(parts.1)
                && plan.filename@ == segments_of(parts.1).last() && plan.dest_path@ == target_dir@
                + "/"@ + segments_of(parts.1).last(),
            Err(e) => (e matches AgentError::InvalidReference(_)) && (url_parts(url@) is None || (
            url_parts(url@) matches Some(parts) && !(is_remote_host(parts.0) && is_file_reference(
                parts.1,
            )))),
        },
{
    match parse_url_parts(url) {
        None => Err(AgentError::InvalidReference(String::from_str("Invalid URL"))),
        Some((host, path)) => {
            let remote = match &host {
                Some(h) => str_eq(h.as_str(), "github.com"),
                None => false,
            };
            if !remote {
                return Err(AgentError::InvalidReference(String::from_str("Not a GitHub URL")));
            }
            let segs = split_segments(path.as_str());
            if segs.len() < 5 {
                return Err(
                    AgentError::InvalidReference(
                        String::from_str(
                            "Invalid GitHub URL. Please provide a direct link to a file.\nExample: https://github.com/user/repo/blob/main/agent.md",
                        ),
                    ),
                );
            }
            if !str_eq(segs[2].as_str(), "blob") {
                return Err(
                    AgentError::InvalidReference(
                        String::from_str(
                            "Only direct file links are supported.\nPlease navigate to the specific agent file on GitHub and use that URL.\nExample: https://github.com/user/repo/blob/main/agent.md",
                        ),
                    ),
                );
            }
            let ghost segsv = segments_of(path@);
            let n = segs.len();
            let mut full = segs[4].clone();
            let mut i: usize = 5;
            proof {
                assert(segsv.skip(4).take(1) =~= seq![segsv[4]]);
                assert(full@ == join_slash(segsv.skip(4).take(1)));
            }
            while i < n
                invariant
                    5 <= i <= n,
                    n == segsv.len(),
                    segs.deep_view() == segsv,
                    full@ == join_slash(segsv.skip(4).take(i - 4)),
                decreases n - i,
            {
                proof {
                    assert(segsv.skip(4).take(i - 4).len() > 0);
                    lemma_join_slash_push(segsv.skip(4).take(i - 4), segsv[i as int]);
                    assert(segsv.skip(4).take(i - 3) =~= segsv.skip(4).take(i - 4).push(
                        segsv[i as int],
                    ));
                }
                full = full.concat("/").concat(segs[i].as_str());
                i = i + 1;
            }
            proof {
                assert(segsv.skip(4).take(n - 4) =~= segsv.skip(4));
            }
            let filename = segs[n - 1].clone();
            proof {
                assert(filename@ == segsv.last());
            }
            let content_url = String::from_str("https://raw.githubusercontent.com/").concat(
                segs[0].as_str(),
            ).concat("/").concat(segs[1].as_str()).concat("/").concat(segs[3].as_str()).concat(
                "/",
            ).concat(full.as_str());
            let dest_path = String::from_str(target_dir).concat("/").concat(filename.as_str());
            Ok(FetchPlan { content_url, dest_path, filename })
        },
    }
}

} // verus!
