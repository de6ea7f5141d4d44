//! The argument rewriter: a single left-to-right pass over a raw compiler
//! argument list, consuming one or two tokens per rule.
//!
//! Rules, in the order a token is classified:
//! frontend marker followed by an internal support file: both dropped;
//! SDK placeholder: substituted with the configured SDK path;
//! worker and wrapper tokens: dropped;
//! build-output and external-dependency paths: prefixed with the execution
//! root; everything else passes through unchanged.

use vstd::prelude::*;
use vstd::string::StringExecFns;
use crate::strutil::contains_seq;
use crate::strutil::ends_with_seq;
use crate::strutil::occurs_at;
use crate::strutil::replace_all;
use crate::strutil::replace_seq;
use crate::strutil::starts_with_seq;
use crate::strutil::str_contains;
use crate::strutil::str_ends_with;
use crate::strutil::str_starts_with;

verus! {

pub open spec fn sdk_marker() -> Seq<char> {
    "__BAZEL_XCODE_SDKROOT__"@
}

/// A frontend flag whose companion token names an internal code-generation
/// support file; the pair means nothing outside the build sandbox.
pub open spec fn is_frontend_pair(arg: Seq<char>, next: Seq<char>) -> bool {
    contains_seq(arg, "-Xfrontend"@) && (contains_seq(next, "-const-gather-protocols-file"@)
        || contains_seq(next, "const_protocols_to_gather.json"@))
}

/// A worker or compiler-wrapper token, meaningless outside the sandbox.
pub open spec fn is_dropped_token(arg: Seq<char>) -> bool {
    contains_seq(arg, "-Xwrapped-swift"@) || ends_with_seq(arg, "worker"@) || starts_with_seq(
        arg,
        "swiftc"@,
    )
}

/// The rewritten argument list from position `i` on.
pub open spec fn rewrite_from(
    args: Seq<Seq<char>>,
    i: int,
    sdk: Seq<char>,
    xr: Seq<char>,
) -> Seq<Seq<char>>
    decreases args.len() - i,
    when 0 <= i <= args.len()
{
    if i >= args.len() {
        Seq::<Seq<char>>::empty()
    } else if i + 1 < args.len() && is_frontend_pair(args[i], args[i + 1]) {
        rewrite_from(args, i + 2, sdk, xr)
    } else if contains_seq(args[i], sdk_marker()) {
        seq![replace_seq(args[i], sdk_marker(), sdk)] + rewrite_from(args, i + 1, sdk, xr)
    } else if is_dropped_token(args[i]) {
        rewrite_from(args, i + 1, sdk, xr)
    } else if contains_seq(args[i], "bazel-out/"@) {
        seq![replace_seq(args[i], "bazel-out/"@, xr + "/bazel-out/"@)] + rewrite_from(
            args,
            i + 1,
            sdk,
            xr,
        )
    } else if contains_seq(args[i], "external/"@) {
        seq![replace_seq(args[i], "external/"@, xr + "/external/"@)] + rewrite_from(
            args,
            i + 1,
            sdk,
            xr,
        )
    } else {
        seq![args[i]] + rewrite_from(args, i + 1, sdk, xr)
    }
}

/// The whole rewritten argument list.
pub open spec fn rewrite_args_spec(args: Seq<Seq<char>>, sdk: Seq<char>, xr: Seq<char>) -> Seq<
    Seq<char>,
> {
    rewrite_from(args, 0, sdk, xr)
}

/// Rewrite a raw argument list for use outside the build sandbox.
pub fn rewrite_arguments(args: &Vec<String>, sdk: &str, execroot: &str) -> (r: Vec<String>)
    ensures
        r@.map_values(|s: String| s@) == rewrite_args_spec(
            args@.map_values(|s: String| s@),
            sdk@,
            execroot@,
        ),
{
    let ghost av = args@.map_values(|s: String| s@);
    let mut bz_prefix = String::from_str(execroot);
    bz_prefix.append("/bazel-out/");
    let mut ext_prefix = String::from_str(execroot);
    ext_prefix.append("/external/");
    proof {
        assert(bz_prefix@ == execroot@ + "/bazel-out/"@);
        assert(ext_prefix@ == execroot@ + "/external/"@);
    }
    let mut out: Vec<String> = Vec::new();
    let mut i: usize = 0;
    proof {
        assert(out@.map_values(|s: String| s@) =~= Seq::<Seq<char>>::empty());
    }
    while i < args.len()
        invariant
            i <= av.len(),
            av == args@.map_values(|s: String| s@),
            av.len() == args@.len(),
            bz_prefix@ == execroot@ + "/bazel-out/"@,
            ext_prefix@ == execroot@ + "/external/"@,
            rewrite_args_spec(av, sdk@, execroot@) == out@.map_values(|s: String| s@)
                + rewrite_from(av, i as int, sdk@, execroot@),
        decreases av.len() - i,
    {
        let ghost prev = out@;
        let arg = &args[i];
        proof {
            assert(av[i as int] == args@[i as int]@);
        }
        if str_contains(arg.as_str(), "-Xfrontend") && i + 1 < args.len() && (str_contains(
            args[i + 1].as_str(),
            "-const-gather-protocols-file",
        ) || str_contains(args[i + 1].as_str(), "const_protocols_to_gather.json")) {
            proof {
                assert(av[i + 1] == args@[i + 1]@);
                assert(is_frontend_pair(av[i as int], av[i + 1]));
            }
            i = i + 2;
        } else if str_contains(arg.as_str(), "__BAZEL_XCODE_SDKROOT__") {
            proof {
                reveal_strlit("__BAZEL_XCODE_SDKROOT__");
            }
            let replaced = replace_all(arg.as_str(), "__BAZEL_XCODE_SDKROOT__", sdk);
            out.push(replaced);
            proof {
                if i + 1 < av.len() {
                    assert(!is_frontend_pair(av[i as int], av[i + 1]));
                }
                assert(out@.map_values(|s: String| s@) =~= prev.map_values(|s: String| s@)
                    + seq![replace_seq(av[i as int], sdk_marker(), sdk@)]);
            }
            i = i + 1;
        } else if str_contains(arg.as_str(), "-Xwrapped-swift") || str_ends_with(
            arg.as_str(),
            "worker",
        ) || str_starts_with(arg.as_str(), "swiftc") {
            proof {
                if i + 1 < av.len() {
                    assert(!is_frontend_pair(av[i as int], av[i + 1]));
                }
                assert(is_dropped_token(av[i as int]));
            }
            i = i + 1;
        } else if str_contains(arg.as_str(), "bazel-out/") {
            proof {
                reveal_strlit("bazel-out/");
            }
            let replaced = replace_all(arg.as_str(), "bazel-out/", bz_prefix.as_str());
            out.push(replaced);
            proof {
                if i + 1 < av.len() {
                    assert(!is_frontend_pair(av[i as int], av[i + 1]));
                }
                assert(out@.map_values(|s: String| s@) =~= prev.map_values(|s: String| s@)
                    + seq![replace_seq(av[i as int], "bazel-out/"@, execroot@ + "/bazel-out/"@)]);
            }
            i = i + 1;
        } else if str_contains(arg.as_str(), "external/") {
            proof {
                reveal_strlit("external/");
            }
            let replaced = replace_all(arg.as_str(), "external/", ext_prefix.as_str());
            out.push(replaced);
            proof {
                if i + 1 < av.len() {
                    assert(!is_frontend_pair(av[i as int], av[i + 1]));
                }
                assert(out@.map_values(|s: String| s@) =~= prev.map_values(|s: String| s@)
                    + seq![replace_seq(av[i as int], "external/"@, execroot@ + "/external/"@)]);
            }
            i = i + 1;
        } else {
            let kept = arg.clone();
            out.push(kept);
            proof {
                if i + 1 < av.len() {
                    assert(!is_frontend_pair(av[i as int], av[i + 1]));
                }
                assert(out@.map_values(|s: String| s@) =~= prev.map_values(|s: String| s@) + seq![
                    av[i as int],
                ]);
            }
            i = i + 1;
        }
    }
    proof {
        assert(rewrite_from(av, av.len() as int, sdk@, execroot@) =~= Seq::<Seq<char>>::empty());
        assert(out@.map_values(|s: String| s@) + Seq::<Seq<char>>::empty() =~= out@.map_values(
            |s: String| s@,
        ));
    }
    out
}

/// Rewriting is a pure function of the list and the two configured paths:
/// two rewrites of the same raw arguments agree byte for byte.
pub proof fn lemma_rewrite_deterministic(
    a1: Seq<Seq<char>>,
    a2: Seq<Seq<char>>,
    sdk: Seq<char>,
    xr: Seq<char>,
)
    requires
        a1 == a2,
    ensures
        rewrite_args_spec(a1, sdk, xr) == rewrite_args_spec(a2, sdk, xr),
{
}

/// A token holding the SDK placeholder, and not consumed as part of a
/// frontend pair, is emitted as its single-pass replacement: each
/// placeholder occurrence is replaced once with the configured SDK path.
pub proof fn lemma_sdk_replacement(args: Seq<Seq<char>>, i: int, sdk: Seq<char>, xr: Seq<char>)
    requires
        0 <= i < args.len(),
        contains_seq(args[i], sdk_marker()),
        !(i + 1 < args.len() && is_frontend_pair(args[i], args[i + 1])),
    ensures
        rewrite_from(args, i, sdk, xr) == seq![replace_seq(args[i], sdk_marker(), sdk)]
            + rewrite_from(args, i + 1, sdk, xr),
{
}

/// A replaced token always carries the replacement text afterwards; with
/// the execution-root prefix as replacement, a build-output path cannot
/// come out of the rewrite without that prefix in it.
pub proof fn lemma_replace_contains_repl(s: Seq<char>, pat: Seq<char>, repl: Seq<char>)
    requires
        pat.len() > 0,
        contains_seq(s, pat),
    ensures
        contains_seq(replace_seq(s, pat, repl), repl),
    decreases s.len(),
{
    let i = choose|i: int| occurs_at(s, pat, i);
    if starts_with_seq(s, pat) {
        let r = replace_seq(s, pat, repl);
        assert(r == repl + replace_seq(s.skip(pat.len() as int), pat, repl));
        assert(r.subrange(0, repl.len() as int) =~= repl);
        assert(occurs_at(r, repl, 0));
    } else {
        assert(i > 0) by {
            if i == 0 {
                assert(s.subrange(0, pat.len() as int) == pat);
            }
        }
        assert(occurs_at(s.skip(1), pat, i - 1)) by {
            assert(s.skip(1).subrange(i - 1, i - 1 + pat.len()) =~= s.subrange(
                i,
                i + pat.len(),
            ));
        }
        lemma_replace_contains_repl(s.skip(1), pat, repl);
        let r1 = replace_seq(s.skip(1), pat, repl);
        let j = choose|j: int| occurs_at(r1, repl, j);
        let r = replace_seq(s, pat, repl);
        assert(s.len() > 0);
        assert(r == seq![s[0]] + r1);
        assert(occurs_at(r, repl, j + 1)) by {
            assert(r.subrange(j + 1, j + 1 + repl.len()) =~= r1.subrange(j, j + repl.len()));
        }
    }
}

/// A token naming a build-output path, classified by no earlier rule, is
/// emitted with every `bazel-out/` occurrence prefixed by the execution
/// root, and the prefixed form is present in the emitted token.
pub proof fn lemma_output_path_rewrite(args: Seq<Seq<char>>, i: int, sdk: Seq<char>, xr: Seq<char>)
    requires
        0 <= i < args.len(),
        contains_seq(args[i], "bazel-out/"@),
        !contains_seq(args[i], sdk_marker()),
        !is_dropped_token(args[i]),
        !(i + 1 < args.len() && is_frontend_pair(args[i], args[i + 1])),
    ensures
        rewrite_from(args, i, sdk, xr) == seq![
            replace_seq(args[i], "bazel-out/"@, xr + "/bazel-out/"@),
        ] + rewrite_from(args, i + 1, sdk, xr),
        contains_seq(rewrite_from(args, i, sdk, xr)[0], xr + "/bazel-out/"@),
{
    reveal_strlit("bazel-out/");
    lemma_replace_contains_repl(args[i], "bazel-out/"@, xr + "/bazel-out/"@);
}

} // verus!
