//! Build-invocation arguments and the command-line flags they produce.
//!
//! The surrounding tooling drives an external build command; the pure part
//! is turning an argument record into the exact list of flag words.

use vstd::prelude::*;

verus! {

/// Arguments for building a guest program.
#[derive(Clone)]
pub struct BuildArgs {
    /// Build using a container for reproducible builds.
    pub docker: bool,
    /// Ignore the toolchain version check.
    pub ignore_rust_version: bool,
    /// If building a binary, its name.
    pub binary: Option<String>,
    /// The produced binary's name.
    pub elf: Option<String>,
    /// Features to build with.
    pub features: Vec<String>,
}

/// The flags contributed by the feature list: a `--features` flag before
/// each feature name.
pub open spec fn feature_flags(features: Seq<Seq<char>>) -> Seq<Seq<char>>
    decreases features.len(),
{
    if features.len() == 0 {
        Seq::empty()
    } else {
        seq!["--features"@, features[0]] + feature_flags(features.drop_first())
    }
}

/// The exact flag words an argument record contributes, in order: the
/// container flag (unless suppressed), the version-check flag, the feature
/// flags, then the binary and produced-binary names.
pub open spec fn arg_flags(
    docker: bool,
    ignore_rust_version: bool,
    binary: Option<Seq<char>>,
    elf: Option<Seq<char>>,
    features: Seq<Seq<char>>,
    ignore_docker: bool,
) -> Seq<Seq<char>> {
    (if docker && !ignore_docker {
        seq!["--docker"@]
    } else {
        Seq::empty()
    }) + (if ignore_rust_version {
        seq!["--ignore-rust-version"@]
    } else {
        Seq::empty()
    }) + feature_flags(features) + (match binary {
        Some(b) => seq!["--binary"@, b],
        None => Seq::empty(),
    }) + (match elf {
        Some(e) => seq!["--elf"@, e],
        None => Seq::empty(),
    })
}

impl BuildArgs {
    /// The flag words this record contributes.
    pub open spec fn flags_spec(self, ignore_docker: bool) -> Seq<Seq<char>> {
        arg_flags(
            self.docker,
            self.ignore_rust_version,
            match self.binary {
                Some(b) => Some(b@),
                None => None,
            },
            match self.elf {
                Some(e) => Some(e@),
                None => None,
            },
            self.features.deep_view(),
            ignore_docker,
        )
    }
}

/// Appending one feature extends the flag list by its two words.
proof fn lemma_feature_flags_snoc(features: Seq<Seq<char>>, f: Seq<char>)
    ensures
        feature_flags(features.push(f)) =~~= feature_flags(features) + seq!["--features"@, f],
    decreases features.len(),
{
    let s = features.push(f);
    if features.len() == 0 {
        assert(s.drop_first() =~= Seq::<Seq<char>>::empty());
        assert(s[0] == f);
        assert(feature_flags(s) == seq!["--features"@, s[0]] + feature_flags(s.drop_first()));
        assert(feature_flags(s) =~~= feature_flags(features) + seq!["--features"@, f]);
    } else {
        assert(s.drop_first() =~= features.drop_first().push(f));
        assert(s[0] == features[0]);
        lemma_feature_flags_snoc(features.drop_first(), f);
        assert(feature_flags(s) == seq!["--features"@, s[0]] + feature_flags(s.drop_first()));
        assert(feature_flags(features) == seq!["--features"@, features[0]] + feature_flags(
            features.drop_first(),
        ));
        assert(feature_flags(s) =~~= feature_flags(features) + seq!["--features"@, f]);
    }
}

/// Appends the build flags for the given arguments to an existing command
/// word list. Useful when adding them to a command assembled elsewhere.
pub fn add_cargo_prove_build_args(
    command_args: &mut Vec<String>,
    prove_args: BuildArgs,
    ignore_docker: bool,
)
    ensures
        final(command_args).deep_view() == old(command_args).deep_view() + prove_args.flags_spec(
            ignore_docker,
        ),
{
    let ghost pre = command_args.deep_view();
    let ghost gargs = prove_args;
    let BuildArgs { docker, ignore_rust_version, binary, elf, features } = prove_args;
    if docker && !ignore_docker {
        command_args.push(String::from_str("--docker"));
    }
    if ignore_rust_version {
        command_args.push(String::from_str("--ignore-rust-version"));
    }
    let ghost mid0 = command_args.deep_view();
    proof {
        assert(mid0 =~= pre + (if gargs.docker && !ignore_docker {
            seq!["--docker"@]
        } else {
            Seq::<Seq<char>>::empty()
        }) + (if gargs.ignore_rust_version {
            seq!["--ignore-rust-version"@]
        } else {
            Seq::<Seq<char>>::empty()
        }));
        assert(features.deep_view() == gargs.features.deep_view());
    }
    let ghost all = features.deep_view();
    let nf = features.len();
    let mut i: usize = 0;
    while i < nf
        invariant
            nf == features@.len(),
            all == features.deep_view(),
            i <= nf,
            command_args.deep_view() == mid0 + feature_flags(all.take(i as int)),
        decreases nf - i,
    {
        let ghost vpre = command_args@;
        let ghost dvpre = command_args.deep_view();
        let f = features[i].clone();
        let ghost fv = f@;
        command_args.push(String::from_str("--features"));
        command_args.push(f);
        proof {
            assert(fv == all[i as int]);
            assert(all.take(i as int + 1) =~= all.take(i as int).push(all[i as int]));
            lemma_feature_flags_snoc(all.take(i as int), all[i as int]);
            let target = mid0 + feature_flags(all.take(i as int + 1));
            assert(command_args@.len() == vpre.len() + 2);
            assert(dvpre.len() == vpre.len());
            assert forall|j: int|
                0 <= j < command_args@.len() implies command_args.deep_view()[j] == #[trigger]
            target[j] by {
                assert(command_args.deep_view()[j] == command_args@[j].deep_view());
                if j < vpre.len() {
                    assert(command_args@[j] == vpre[j]);
                    assert(dvpre[j] == vpre[j].deep_view());
                    assert(dvpre[j] == (mid0 + feature_flags(all.take(i as int)))[j]);
                } else if j == vpre.len() {
                    assert(command_args@[j]@ == "--features"@);
                } else {
                    assert(command_args@[j]@ == fv);
                }
            }
            assert(command_args.deep_view().len() == target.len());
            assert(command_args.deep_view() =~= target);
        }
        i += 1;
    }
    proof {
        assert(all.take(nf as int) =~= all);
    }
    let ghost mid1 = command_args.deep_view();
    match &binary {
        Some(b) => {
            command_args.push(String::from_str("--binary"));
            command_args.push(b.clone());
        },
        None => {},
    }
    let ghost mid2 = command_args.deep_view();
    proof {
        assert(mid2 =~~= mid1 + (match gargs.binary {
            Some(b) => seq!["--binary"@, b@],
            None => Seq::<Seq<char>>::empty(),
        }));
    }
    match &elf {
        Some(e) => {
            command_args.push(String::from_str("--elf"));
            command_args.push(e.clone());
        },
        None => {},
    }
    proof {
        assert(command_args.deep_view() =~~= mid2 + (match gargs.elf {
            Some(e) => seq!["--elf"@, e@],
            None => Seq::<Seq<char>>::empty(),
        }));
        assert(command_args.deep_view() =~~= pre + gargs.flags_spec(ignore_docker));
    }
}

} // verus!
