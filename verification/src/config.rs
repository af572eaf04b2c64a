//! Choices that the endpoints make from their settings.
use vstd::prelude::*;
use vstd::string::StringExecFns;

verus! {

/// Where the console learns of the endpoints.
#[derive(Clone, Copy, Debug, PartialEq, Eq, Structural)]
pub enum EndpointSourceKind {
    /// From environment variables.
    Env,
    /// From the Kubernetes API.
    Kubernetes,
    /// From the OpenShift API.
    Openshift,
}

pub open spec fn openshift_name() -> Seq<char> {
    seq!['o', 'p', 'e', 'n', 's', 'h', 'i', 'f', 't']
}

pub open spec fn kubernetes_name() -> Seq<char> {
    seq!['k', 'u', 'b', 'e', 'r', 'n', 'e', 't', 'e', 's']
}

/// The error for a source name that is none of the known ones.
pub open spec fn unsupported_source_message(name: Seq<char>) -> Seq<char> {
    seq![
        'U', 'n', 's', 'u', 'p', 'p', 'o', 'r', 't', 'e', 'd', ' ', 'e', 'n', 'd', 'p', 'o', 'i',
        'n', 't', ' ', 's', 'o', 'u', 'r', 'c', 'e', ':', ' ', '\'',
    ] + name + seq!['\'']
}

/// A setting taken by view.
pub open spec fn setting_view(s: Option<String>) -> Option<Seq<char>> {
    match s {
        Some(v) => Some(v@),
        None => None,
    }
}

/// The source that the setting `name` selects.
pub open spec fn source_for(name: Option<Seq<char>>) -> Result<EndpointSourceKind, Seq<char>> {
    match name {
        None => Ok(EndpointSourceKind::Env),
        Some(n) => if n == openshift_name() {
            Ok(EndpointSourceKind::Openshift)
        } else if n == kubernetes_name() {
            Ok(EndpointSourceKind::Kubernetes)
        } else {
            Err(unsupported_source_message(n))
        },
    }
}

impl EndpointSourceKind {
    /// Selects the endpoint source from the setting `name` (unset: the
    /// environment); an unknown name is an error that quotes it.
    pub fn select(name: Option<String>) -> (r: Result<EndpointSourceKind, String>)
        ensures
            match (r, source_for(setting_view(name))) {
                (Ok(k), Ok(j)) => k == j,
                (Err(e), Err(f)) => e@ == f,
                _ => false,
            },
    {
        match name {
            None => Ok(EndpointSourceKind::Env),
            Some(n) => {
                let openshift = "openshift".to_owned();
                let kubernetes = "kubernetes".to_owned();
                proof {
                    reveal_strlit("openshift");
                    reveal_strlit("kubernetes");
                }
                assert(openshift@ =~= openshift_name());
                assert(kubernetes@ =~= kubernetes_name());
                if n == openshift {
                    Ok(EndpointSourceKind::Openshift)
                } else if n == kubernetes {
                    Ok(EndpointSourceKind::Kubernetes)
                } else {
                    let mut msg = "Unsupported endpoint source: '".to_owned();
                    msg.append(n.as_str());
                    msg.append("'");
                    proof {
                        reveal_strlit("Unsupported endpoint source: '");
                        reveal_strlit("'");
                    }
                    assert(msg@ =~= unsupported_source_message(n@));
                    Err(msg)
                }
            },
        }
    }
}

/// A setting's view is the view of the text it holds.
pub proof fn law_setting_view_keeps_text(s: Option<String>)
    ensures
        s matches Some(t) ==> setting_view(s) == Some(t@),
        s is None ==> setting_view(s) is None,
{
}

/// An unset source selects the environment; exactly the names `openshift`
/// and `kubernetes` select those platforms; any other name is refused with
/// a message that quotes it whole after `Unsupported endpoint source: `.
pub proof fn law_source_selection(n: Seq<char>)
    ensures
        source_for(None) == Ok::<EndpointSourceKind, Seq<char>>(EndpointSourceKind::Env),
        n == seq!['o', 'p', 'e', 'n', 's', 'h', 'i', 'f', 't'] ==> source_for(Some(n)) == Ok::<
            EndpointSourceKind,
            Seq<char>,
        >(EndpointSourceKind::Openshift),
        n == seq!['k', 'u', 'b', 'e', 'r', 'n', 'e', 't', 'e', 's'] ==> source_for(Some(n)) == Ok::<
            EndpointSourceKind,
            Seq<char>,
        >(EndpointSourceKind::Kubernetes),
        n != seq!['o', 'p', 'e', 'n', 's', 'h', 'i', 'f', 't'] && n != seq![
            'k',
            'u',
            'b',
            'e',
            'r',
            'n',
            'e',
            't',
            'e',
            's',
        ] ==> (source_for(Some(n)) matches Err(msg) && msg.len() == n.len() + 31 && msg.subrange(
            0,
            30,
        ) == seq![
            'U', 'n', 's', 'u', 'p', 'p', 'o', 'r', 't', 'e', 'd', ' ', 'e', 'n', 'd', 'p', 'o', 'i',
            'n', 't', ' ', 's', 'o', 'u', 'r', 'c', 'e', ':', ' ', '\'',
        ] && msg.subrange(30, 30 + n.len() as int) == n && msg[30 + n.len() as int] == '\''),
{
    let pre = seq![
        'U', 'n', 's', 'u', 'p', 'p', 'o', 'r', 't', 'e', 'd', ' ', 'e', 'n', 'd', 'p', 'o', 'i',
        'n', 't', ' ', 's', 'o', 'u', 'r', 'c', 'e', ':', ' ', '\'',
    ];
    let msg = unsupported_source_message(n);
    assert(msg.subrange(0, 30) =~= pre);
    assert(msg.subrange(30, 30 + n.len() as int) =~= n);
}

/// TLS is off exactly when `DISABLE_TLS` is the text `true`.
pub proof fn law_tls_off_only_for_true()
    ensures
        true_name() == seq!['t', 'r', 'u', 'e'],
{
}

pub open spec fn true_name() -> Seq<char> {
    seq!['t', 'r', 'u', 'e']
}

/// Whether the MQTT endpoint serves TLS, from the `DISABLE_TLS` setting: it
/// does unless the setting is exactly `true`.
pub fn tls_enabled(disable_tls: Option<String>) -> (r: bool)
    ensures
        r == !(disable_tls matches Some(s) && s@ == true_name()),
{
    match disable_tls {
        Some(s) => {
            let t = "true".to_owned();
            proof {
                reveal_strlit("true");
            }
            assert(t@ =~= true_name());
            !(s == t)
        },
        None => true,
    }
}

} // verus!
