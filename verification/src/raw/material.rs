//! Parses the MTL format, which stores material data.

use crate::error::{ErrModel, LoadError, LoadErrorKind, ObjError, ObjResult, err_model};
use crate::raw::lexer::{GStmt, Statement, lex, lex_spec, stmts_model};
use crate::raw::object::{assoc_insert, find_key, has_key, key_value, lemma_find_key_unique};
use crate::raw::util::{
    all_float_tokens, check_float_token, ci, is_float_token, parse_args, parse_u32, parse_u32_spec,
};
use crate::text::{chars_eq_str, chars_to_string, lines_model, strs_model, to_chars};
use vstd::prelude::*;

verus! {

/// A color given in an MTL file, with its channels kept as float tokens.
#[derive(Clone, Debug, PartialEq)]
pub enum MtlColor {
    /// A color in the RGB color space.
    Rgb(String, String, String),
    /// A color in the CIEXYZ color space.
    Xyz(String, String, String),
    /// A color described by a spectral curve file and a multiplier.
    Spectral(String, String),
}

/// The model of an `MtlColor`.
pub enum GMtlColor {
    /// A color in the RGB color space.
    Rgb(Seq<char>, Seq<char>, Seq<char>),
    /// A color in the CIEXYZ color space.
    Xyz(Seq<char>, Seq<char>, Seq<char>),
    /// A color described by a spectral curve file and a multiplier.
    Spectral(Seq<char>, Seq<char>),
}

/// The model of an `MtlColor`.
pub open spec fn color_model(c: MtlColor) -> GMtlColor {
    match c {
        MtlColor::Rgb(r, g, b) => GMtlColor::Rgb(r@, g@, b@),
        MtlColor::Xyz(x, y, z) => GMtlColor::Xyz(x@, y@, z@),
        MtlColor::Spectral(f, m) => GMtlColor::Spectral(f@, m@),
    }
}

/// A material's dissolve, as written: either the value of a `d` statement,
/// or the complement stated by `Tr v`, which the format reads as `1 - v`.
#[derive(Clone, Debug, PartialEq)]
pub enum Dissolve {
    /// `d v`: the dissolve is the token's value itself.
    Value(String),
    /// `Tr v`: the dissolve is one minus the token's value.
    Complement(String),
}

/// The model of a `Dissolve`.
pub enum GDissolve {
    /// `d v`: the dissolve is the token's value itself.
    Value(Seq<char>),
    /// `Tr v`: the dissolve is one minus the token's value.
    Complement(Seq<char>),
}

/// The model of a `Dissolve`.
pub open spec fn dissolve_model(d: Dissolve) -> GDissolve {
    match d {
        Dissolve::Value(s) => GDissolve::Value(s@),
        Dissolve::Complement(s) => GDissolve::Complement(s@),
    }
}

/// A texture map and its options, with numeric options kept as float
/// tokens.
#[derive(Debug, PartialEq)]
pub struct MtlTextureMap {
    /// The name of the texture file.
    pub file: String,
    /// Bump multiplier, from `-bm`.
    pub bump_multiplier: String,
    /// Texture origin offset, from `-o`.
    pub origin_offset: (String, String, String),
    /// Texture scale, from `-s`.
    pub scale: (String, String, String),
    /// Texture turbulence, from `-t`.
    pub turbulence: (String, String, String),
    /// Resolution for procedural textures, from `-texres`.
    pub resolution: u32,
    /// Whether the texture clamps to its edges, from `-clamp`.
    pub clamping: bool,
    /// Brightness base and gain, from `-mm`.
    pub base_gain: (String, String),
    /// Horizontal blending, from `-blendu`.
    pub blend_u: bool,
    /// Vertical blending, from `-blendv`.
    pub blend_v: bool,
}

/// The model of an `MtlTextureMap`.
pub struct GTexMap {
    /// The name of the texture file.
    pub file: Seq<char>,
    /// Bump multiplier.
    pub bump_multiplier: Seq<char>,
    /// Texture origin offset.
    pub origin_offset: (Seq<char>, Seq<char>, Seq<char>),
    /// Texture scale.
    pub scale: (Seq<char>, Seq<char>, Seq<char>),
    /// Texture turbulence.
    pub turbulence: (Seq<char>, Seq<char>, Seq<char>),
    /// Resolution for procedural textures.
    pub resolution: u32,
    /// Whether the texture clamps to its edges.
    pub clamping: bool,
    /// Brightness base and gain.
    pub base_gain: (Seq<char>, Seq<char>),
    /// Horizontal blending.
    pub blend_u: bool,
    /// Vertical blending.
    pub blend_v: bool,
}

impl MtlTextureMap {
    /// The texture map's model.
    pub open spec fn model(&self) -> GTexMap {
        GTexMap {
            file: self.file@,
            bump_multiplier: self.bump_multiplier@,
            origin_offset: (self.origin_offset.0@, self.origin_offset.1@, self.origin_offset.2@),
            scale: (self.scale.0@, self.scale.1@, self.scale.2@),
            turbulence: (self.turbulence.0@, self.turbulence.1@, self.turbulence.2@),
            resolution: self.resolution,
            clamping: self.clamping,
            base_gain: (self.base_gain.0@, self.base_gain.1@),
            blend_u: self.blend_u,
            blend_v: self.blend_v,
        }
    }
}

/// A texture map before any option: the format's published defaults.
pub open spec fn gtexmap_default(file: Seq<char>) -> GTexMap {
    GTexMap {
        file,
        bump_multiplier: "1"@,
        origin_offset: ("0"@, "0"@, "0"@),
        scale: ("1"@, "1"@, "1"@),
        turbulence: ("0"@, "0"@, "0"@),
        resolution: 1,
        clamping: false,
        base_gain: ("0"@, "1"@),
        blend_u: false,
        blend_v: false,
    }
}

impl Default for MtlTextureMap {
    /// A texture map without a file, at the format's published defaults.
    fn default() -> (r: MtlTextureMap)
        ensures
            r.model() == gtexmap_default(""@),
    {
        MtlTextureMap {
            file: "".to_owned(),
            bump_multiplier: "1".to_owned(),
            origin_offset: ("0".to_owned(), "0".to_owned(), "0".to_owned()),
            scale: ("1".to_owned(), "1".to_owned(), "1".to_owned()),
            turbulence: ("0".to_owned(), "0".to_owned(), "0".to_owned()),
            resolution: 1,
            clamping: false,
            base_gain: ("0".to_owned(), "1".to_owned()),
            blend_u: false,
            blend_v: false,
        }
    }
}

/// The word `on`, in any ASCII case.
pub open spec fn is_on_word(s: Seq<char>) -> bool {
    s.len() == 2 && ci(s[0], 'o', 'O') && ci(s[1], 'n', 'N')
}

/// The word `true`, in any ASCII case.
pub open spec fn is_true_word(s: Seq<char>) -> bool {
    s.len() == 4 && ci(s[0], 't', 'T') && ci(s[1], 'r', 'R') && ci(s[2], 'u', 'U') && ci(
        s[3],
        'e',
        'E',
    )
}

/// Whether the token switches a flag on: `on` or `true`, in any ASCII case.
pub open spec fn is_flag_on(s: Seq<char>) -> bool {
    is_on_word(s) || is_true_word(s)
}

/// Runtime test for [`is_flag_on`].
fn check_flag_on(v: &Vec<char>) -> (b: bool)
    ensures
        b == is_flag_on(v@),
{
    if v.len() == 2 {
        (v[0] == 'o' || v[0] == 'O') && (v[1] == 'n' || v[1] == 'N')
    } else if v.len() == 4 {
        (v[0] == 't' || v[0] == 'T') && (v[1] == 'r' || v[1] == 'R') && (v[2] == 'u' || v[2]
            == 'U') && (v[3] == 'e' || v[3] == 'E')
    } else {
        false
    }
}

/// What a color specification yields: `xyz` and `spectral` colors by their
/// leading word, and RGB otherwise; single channel values broadcast to all
/// three channels.
pub open spec fn parse_color_spec(args: Seq<Seq<char>>) -> Result<GMtlColor, ErrModel> {
    if args.len() == 0 {
        Err(ErrModel::Load(LoadErrorKind::WrongNumberOfArguments))
    } else if args[0] == "xyz"@ {
        if !all_float_tokens(args, 1) {
            Err(ErrModel::ParseFloat)
        } else if args.len() == 2 {
            Ok(GMtlColor::Xyz(args[1], args[1], args[1]))
        } else if args.len() == 4 {
            Ok(GMtlColor::Xyz(args[1], args[2], args[3]))
        } else {
            Err(ErrModel::Load(LoadErrorKind::WrongNumberOfArguments))
        }
    } else if args[0] == "spectral"@ {
        if args.len() == 2 {
            Ok(GMtlColor::Spectral(args[1], "1"@))
        } else if args.len() == 3 {
            if is_float_token(args[2]) {
                Ok(GMtlColor::Spectral(args[1], args[2]))
            } else {
                Err(ErrModel::ParseFloat)
            }
        } else {
            Err(ErrModel::Load(LoadErrorKind::WrongNumberOfArguments))
        }
    } else {
        if !all_float_tokens(args, 0) {
            Err(ErrModel::ParseFloat)
        } else if args.len() == 1 {
            Ok(GMtlColor::Rgb(args[0], args[0], args[0]))
        } else if args.len() == 3 {
            Ok(GMtlColor::Rgb(args[0], args[1], args[2]))
        } else {
            Err(ErrModel::Load(LoadErrorKind::WrongNumberOfArguments))
        }
    }
}

/// Parses a color from the arguments of a statement.
pub fn parse_color(args: &Vec<Vec<char>>) -> (r: Result<MtlColor, ObjError>)
    ensures
        match r {
            Ok(c) => parse_color_spec(lines_model(args@)) == Ok::<GMtlColor, ErrModel>(
                color_model(c),
            ),
            Err(e) => parse_color_spec(lines_model(args@)) == Err::<GMtlColor, ErrModel>(
                err_model(e),
            ),
        },
{
    let ghost am = lines_model(args@);
    if args.len() == 0 {
        return Err(
            ObjError::Load(
                LoadError::new(LoadErrorKind::WrongNumberOfArguments, "Expected at least 1 argument"),
            ),
        );
    }
    proof {
        assert(am[0] == args@[0]@);
    }
    if chars_eq_str(&args[0], "xyz") {
        match parse_args(args, 1) {
            Err(e) => {
                return Err(e);
            },
            Ok(toks) => {
                proof {
                    assert(strs_model(toks@) == am.skip(1));
                }
                if toks.len() == 1 {
                    proof {
                        assert(strs_model(toks@)[0] == toks@[0]@);
                        assert(am.skip(1)[0] == am[1]);
                    }
                    let x = toks[0].clone();
                    return Ok(MtlColor::Xyz(x.clone(), x.clone(), x));
                } else if toks.len() == 3 {
                    proof {
                        assert(strs_model(toks@)[0] == toks@[0]@);
                        assert(strs_model(toks@)[1] == toks@[1]@);
                        assert(strs_model(toks@)[2] == toks@[2]@);
                        assert(am.skip(1)[0] == am[1]);
                        assert(am.skip(1)[1] == am[2]);
                        assert(am.skip(1)[2] == am[3]);
                    }
                    return Ok(MtlColor::Xyz(toks[0].clone(), toks[1].clone(), toks[2].clone()));
                } else {
                    return Err(
                        ObjError::Load(
                            LoadError::new(
                                LoadErrorKind::WrongNumberOfArguments,
                                "Expected 1 or 3 color values",
                            ),
                        ),
                    );
                }
            },
        }
    } else if chars_eq_str(&args[0], "spectral") {
        if args.len() == 2 {
            proof {
                assert(am[1] == args@[1]@);
            }
            return Ok(MtlColor::Spectral(chars_to_string(&args[1]), "1".to_owned()));
        } else if args.len() == 3 {
            proof {
                assert(am[1] == args@[1]@);
                assert(am[2] == args@[2]@);
            }
            if check_float_token(&args[2]) {
                return Ok(
                    MtlColor::Spectral(chars_to_string(&args[1]), chars_to_string(&args[2])),
                );
            } else {
                return Err(ObjError::ParseFloat);
            }
        } else {
            return Err(
                ObjError::Load(
                    LoadError::new(LoadErrorKind::WrongNumberOfArguments, "Expected 1 or 2 arguments"),
                ),
            );
        }
    } else {
        match parse_args(args, 0) {
            Err(e) => {
                proof {
                    assert(am.skip(0) =~= am);
                }
                return Err(e);
            },
            Ok(toks) => {
                proof {
                    assert(am.skip(0) =~= am);
                    assert(strs_model(toks@) == am.skip(0));
                }
                if toks.len() == 1 {
                    proof {
                        assert(strs_model(toks@)[0] == toks@[0]@);
                    }
                    let v = toks[0].clone();
                    return Ok(MtlColor::Rgb(v.clone(), v.clone(), v));
                } else if toks.len() == 3 {
                    proof {
                        assert(strs_model(toks@)[0] == toks@[0]@);
                        assert(strs_model(toks@)[1] == toks@[1]@);
                        assert(strs_model(toks@)[2] == toks@[2]@);
                    }
                    return Ok(MtlColor::Rgb(toks[0].clone(), toks[1].clone(), toks[2].clone()));
                } else {
                    return Err(
                        ObjError::Load(
                            LoadError::new(
                                LoadErrorKind::WrongNumberOfArguments,
                                "Expected 1 or 3 color values",
                            ),
                        ),
                    );
                }
            },
        }
    }
}

/// Applies the leading `-option value` pairs of a texture-map statement to
/// the map, in order; an option this library does not recognize is skipped
/// without effect.
pub open spec fn opts_fold(m: GTexMap, opts: Seq<Seq<char>>) -> Result<GTexMap, ErrModel>
    decreases opts.len(),
{
    if opts.len() == 0 {
        Ok(m)
    } else {
        let o = opts[0];
        if o == "-bm"@ {
            if opts.len() < 2 {
                Err(ErrModel::Load(LoadErrorKind::WrongNumberOfArguments))
            } else if !is_float_token(opts[1]) {
                Err(ErrModel::ParseFloat)
            } else {
                opts_fold(GTexMap { bump_multiplier: opts[1], ..m }, opts.skip(2))
            }
        } else if o == "-o"@ {
            if opts.len() < 4 {
                Err(ErrModel::Load(LoadErrorKind::WrongNumberOfArguments))
            } else if !is_float_token(opts[1]) {
                Err(ErrModel::ParseFloat)
            } else if !is_float_token(opts[2]) {
                Err(ErrModel::ParseFloat)
            } else if !is_float_token(opts[3]) {
                Err(ErrModel::ParseFloat)
            } else {
                opts_fold(
                    GTexMap { origin_offset: (opts[1], opts[2], opts[3]), ..m },
                    opts.skip(4),
                )
            }
        } else if o == "-s"@ {
            if opts.len() < 4 {
                Err(ErrModel::Load(LoadErrorKind::WrongNumberOfArguments))
            } else if !is_float_token(opts[1]) {
                Err(ErrModel::ParseFloat)
            } else if !is_float_token(opts[2]) {
                Err(ErrModel::ParseFloat)
            } else if !is_float_token(opts[3]) {
                Err(ErrModel::ParseFloat)
            } else {
                opts_fold(GTexMap { scale: (opts[1], opts[2], opts[3]), ..m }, opts.skip(4))
            }
        } else if o == "-t"@ {
            if opts.len() < 4 {
                Err(ErrModel::Load(LoadErrorKind::WrongNumberOfArguments))
            } else if !is_float_token(opts[1]) {
                Err(ErrModel::ParseFloat)
            } else if !is_float_token(opts[2]) {
                Err(ErrModel::ParseFloat)
            } else if !is_float_token(opts[3]) {
                Err(ErrModel::ParseFloat)
            } else {
                opts_fold(GTexMap { turbulence: (opts[1], opts[2], opts[3]), ..m }, opts.skip(4))
            }
        } else if o == "-texres"@ {
            if opts.len() < 2 {
                Err(ErrModel::Load(LoadErrorKind::WrongNumberOfArguments))
            } else {
                match parse_u32_spec(opts[1]) {
                    Err(k) => Err(ErrModel::ParseInt(k)),
                    Ok(v) => opts_fold(GTexMap { resolution: v as u32, ..m }, opts.skip(2)),
                }
            }
        } else if o == "-clamp"@ {
            if opts.len() < 2 {
                Err(ErrModel::Load(LoadErrorKind::WrongNumberOfArguments))
            } else {
                opts_fold(GTexMap { clamping: is_flag_on(opts[1]), ..m }, opts.skip(2))
            }
        } else if o == "-mm"@ {
            if opts.len() < 3 {
                Err(ErrModel::Load(LoadErrorKind::WrongNumberOfArguments))
            } else if !is_float_token(opts[1]) {
                Err(ErrModel::ParseFloat)
            } else if !is_float_token(opts[2]) {
                Err(ErrModel::ParseFloat)
            } else {
                opts_fold(GTexMap { base_gain: (opts[1], opts[2]), ..m }, opts.skip(3))
            }
        } else if o == "-blendu"@ {
            if opts.len() < 2 {
                Err(ErrModel::Load(LoadErrorKind::WrongNumberOfArguments))
            } else {
                opts_fold(GTexMap { blend_u: is_flag_on(opts[1]), ..m }, opts.skip(2))
            }
        } else if o == "-blendv"@ {
            if opts.len() < 2 {
                Err(ErrModel::Load(LoadErrorKind::WrongNumberOfArguments))
            } else {
                opts_fold(GTexMap { blend_v: is_flag_on(opts[1]), ..m }, opts.skip(2))
            }
        } else {
            opts_fold(m, opts.skip(1))
        }
    }
}

/// What a texture-map specification yields: the last argument is the file
/// name, everything before it `-option value` pairs.
pub open spec fn parse_texture_map_spec(args: Seq<Seq<char>>) -> Result<GTexMap, ErrModel> {
    if args.len() == 0 {
        Err(ErrModel::Load(LoadErrorKind::WrongNumberOfArguments))
    } else {
        opts_fold(gtexmap_default(args.last()), args.take(args.len() - 1))
    }
}

/// Parses a texture map specification from the arguments of a statement.
#[verifier::rlimit(80)]
pub fn parse_texture_map(args: &Vec<Vec<char>>) -> (r: Result<MtlTextureMap, ObjError>)
    ensures
        match r {
            Ok(m) => parse_texture_map_spec(lines_model(args@)) == Ok::<GTexMap, ErrModel>(
                m.model(),
            ),
            Err(e) => parse_texture_map_spec(lines_model(args@)) == Err::<GTexMap, ErrModel>(
                err_model(e),
            ),
        },
{
    let ghost am = lines_model(args@);
    if args.len() == 0 {
        return Err(
            ObjError::Load(
                LoadError::new(LoadErrorKind::WrongNumberOfArguments, "Expected at least a filename"),
            ),
        );
    }
    let n = args.len() - 1;
    let ghost opts = am.take(n as int);
    let mut tm = MtlTextureMap::default();
    tm.file = chars_to_string(&args[n]);
    proof {
        assert(am[n as int] == args@[n as int]@);
        assert(am.last() == am[n as int]);
        assert(tm.model() == gtexmap_default(am.last()));
        assert(opts.skip(0) =~= opts);
    }
    let mut i: usize = 0;
    loop
        invariant
            i <= n,
            n + 1 == args@.len(),
            am == lines_model(args@),
            opts == am.take(n as int),
            opts_fold(gtexmap_default(am.last()), opts) == opts_fold(
                tm.model(),
                opts.skip(i as int),
            ),
        decreases n - i,
    {
        if i == n {
            proof {
                assert(opts.skip(i as int) =~= Seq::<Seq<char>>::empty());
            }
            return Ok(tm);
        }
        proof {
            assert(opts.skip(i as int)[0] == opts[i as int]);
            assert(opts[i as int] == am[i as int]);
            assert(am[i as int] == args@[i as int]@);
            if i + 1 < n {
                assert(opts.skip(i as int)[1] == opts[i + 1]);
                assert(opts[i + 1 as int] == args@[i + 1 as int]@);
            }
            if i + 2 < n {
                assert(opts.skip(i as int)[2] == opts[i + 2]);
                assert(opts[i + 2 as int] == args@[i + 2 as int]@);
            }
            if i + 3 < n {
                assert(opts.skip(i as int)[3] == opts[i + 3]);
                assert(opts[i + 3 as int] == args@[i + 3 as int]@);
            }
        }
        if chars_eq_str(&args[i], "-bm") {
            if n - i < 2 {
                return Err(
                    ObjError::Load(
                        LoadError::new(
                            LoadErrorKind::WrongNumberOfArguments,
                            "Missing bump value for -bm option",
                        ),
                    ),
                );
            }
            if !check_float_token(&args[i + 1]) {
                return Err(ObjError::ParseFloat);
            }
            tm.bump_multiplier = chars_to_string(&args[i + 1]);
            proof {
                assert(opts.skip(i as int).skip(2) =~= opts.skip(i + 2));
            }
            i += 2;
        } else if chars_eq_str(&args[i], "-o") {
            if n - i < 4 {
                return Err(
                    ObjError::Load(
                        LoadError::new(
                            LoadErrorKind::WrongNumberOfArguments,
                            "Missing a coordinate for the -o option",
                        ),
                    ),
                );
            }
            if !check_float_token(&args[i + 1]) {
                return Err(ObjError::ParseFloat);
            }
            if !check_float_token(&args[i + 2]) {
                return Err(ObjError::ParseFloat);
            }
            if !check_float_token(&args[i + 3]) {
                return Err(ObjError::ParseFloat);
            }
            tm.origin_offset = (
                chars_to_string(&args[i + 1]),
                chars_to_string(&args[i + 2]),
                chars_to_string(&args[i + 3]),
            );
            proof {
                assert(opts.skip(i as int).skip(4) =~= opts.skip(i + 4));
            }
            i += 4;
        } else if chars_eq_str(&args[i], "-s") {
            if n - i < 4 {
                return Err(
                    ObjError::Load(
                        LoadError::new(
                            LoadErrorKind::WrongNumberOfArguments,
                            "Missing a coordinate for the -s option",
                        ),
                    ),
                );
            }
            if !check_float_token(&args[i + 1]) {
                return Err(ObjError::ParseFloat);
            }
            if !check_float_token(&args[i + 2]) {
                return Err(ObjError::ParseFloat);
            }
            if !check_float_token(&args[i + 3]) {
                return Err(ObjError::ParseFloat);
            }
            tm.scale = (
                chars_to_string(&args[i + 1]),
                chars_to_string(&args[i + 2]),
                chars_to_string(&args[i + 3]),
            );
            proof {
                assert(opts.skip(i as int).skip(4) =~= opts.skip(i + 4));
            }
            i += 4;
        } else if chars_eq_str(&args[i], "-t") {
            if n - i < 4 {
                return Err(
                    ObjError::Load(
                        LoadError::new(
                            LoadErrorKind::WrongNumberOfArguments,
                            "Missing a coordinate for the -t option",
                        ),
                    ),
                );
            }
            if !check_float_token(&args[i + 1]) {
                return Err(ObjError::ParseFloat);
            }
            if !check_float_token(&args[i + 2]) {
                return Err(ObjError::ParseFloat);
            }
            if !check_float_token(&args[i + 3]) {
                return Err(ObjError::ParseFloat);
            }
            tm.turbulence = (
                chars_to_string(&args[i + 1]),
                chars_to_string(&args[i + 2]),
                chars_to_string(&args[i + 3]),
            );
            proof {
                assert(opts.skip(i as int).skip(4) =~= opts.skip(i + 4));
            }
            i += 4;
        } else if chars_eq_str(&args[i], "-texres") {
            if n - i < 2 {
                return Err(
                    ObjError::Load(
                        LoadError::new(
                            LoadErrorKind::WrongNumberOfArguments,
                            "Missing resolution value for -texres option",
                        ),
                    ),
                );
            }
            match parse_u32(&args[i + 1]) {
                Err(k) => {
                    return Err(ObjError::ParseInt(k));
                },
                Ok(v) => {
                    tm.resolution = v;
                },
            }
            proof {
                assert(opts.skip(i as int).skip(2) =~= opts.skip(i + 2));
            }
            i += 2;
        } else if chars_eq_str(&args[i], "-clamp") {
            if n - i < 2 {
                return Err(
                    ObjError::Load(
                        LoadError::new(
                            LoadErrorKind::WrongNumberOfArguments,
                            "Missing on/off value for -clamp option",
                        ),
                    ),
                );
            }
            tm.clamping = check_flag_on(&args[i + 1]);
            proof {
                assert(opts.skip(i as int).skip(2) =~= opts.skip(i + 2));
            }
            i += 2;
        } else if chars_eq_str(&args[i], "-mm") {
            if n - i < 3 {
                return Err(
                    ObjError::Load(
                        LoadError::new(
                            LoadErrorKind::WrongNumberOfArguments,
                            "Missing base or gain value for -mm option",
                        ),
                    ),
                );
            }
            if !check_float_token(&args[i + 1]) {
                return Err(ObjError::ParseFloat);
            }
            if !check_float_token(&args[i + 2]) {
                return Err(ObjError::ParseFloat);
            }
            tm.base_gain = (chars_to_string(&args[i + 1]), chars_to_string(&args[i + 2]));
            proof {
                assert(opts.skip(i as int).skip(3) =~= opts.skip(i + 3));
            }
            i += 3;
        } else if chars_eq_str(&args[i], "-blendu") {
            if n - i < 2 {
                return Err(
                    ObjError::Load(
                        LoadError::new(
                            LoadErrorKind::WrongNumberOfArguments,
                            "Missing on/off value for -blendu option",
                        ),
                    ),
                );
            }
            tm.blend_u = check_flag_on(&args[i + 1]);
            proof {
                assert(opts.skip(i as int).skip(2) =~= opts.skip(i + 2));
            }
            i += 2;
        } else if chars_eq_str(&args[i], "-blendv") {
            if n - i < 2 {
                return Err(
                    ObjError::Load(
                        LoadError::new(
                            LoadErrorKind::WrongNumberOfArguments,
                            "Missing on/off value for -blendv option",
                        ),
                    ),
                );
            }
            tm.blend_v = check_flag_on(&args[i + 1]);
            proof {
                assert(opts.skip(i as int).skip(2) =~= opts.skip(i + 2));
            }
            i += 2;
        } else {
            proof {
                assert(opts.skip(i as int).skip(1) =~= opts.skip(i + 1));
            }
            i += 1;
        }
    }
}

/// A single material from an MTL file.
#[derive(Debug, PartialEq)]
pub struct Material {
    /// The ambient color, from `Ka`.
    pub ambient: Option<MtlColor>,
    /// The diffuse color, from `Kd`.
    pub diffuse: Option<MtlColor>,
    /// The specular color, from `Ks`.
    pub specular: Option<MtlColor>,
    /// The emissive color, from `Ke`.
    pub emissive: Option<MtlColor>,
    /// The transmission filter, from `Tf`.
    pub transmission_filter: Option<MtlColor>,
    /// The illumination model, from `illum`.
    pub illumination_model: Option<u32>,
    /// The dissolve, from `d` or `Tr`.
    pub dissolve: Option<Dissolve>,
    /// The specular exponent, from `Ns`.
    pub specular_exponent: Option<String>,
    /// The optical density, from `Ni`.
    pub optical_density: Option<String>,
    /// The ambient color map, from `map_Ka`.
    pub ambient_map: Option<MtlTextureMap>,
    /// The diffuse color map, from `map_Kd`.
    pub diffuse_map: Option<MtlTextureMap>,
    /// The specular color map, from `map_Ks`.
    pub specular_map: Option<MtlTextureMap>,
    /// The emissive color map, from `map_Ke`.
    pub emissive_map: Option<MtlTextureMap>,
    /// The dissolve map, from `map_d`.
    pub dissolve_map: Option<MtlTextureMap>,
    /// The bump map, from `map_bump`, `map_Bump` or `bump`.
    pub bump_map: Option<MtlTextureMap>,
}

/// The model of a `Material`.
pub struct GMaterial {
    /// The ambient color.
    pub ambient: Option<GMtlColor>,
    /// The diffuse color.
    pub diffuse: Option<GMtlColor>,
    /// The specular color.
    pub specular: Option<GMtlColor>,
    /// The emissive color.
    pub emissive: Option<GMtlColor>,
    /// The transmission filter.
    pub transmission_filter: Option<GMtlColor>,
    /// The illumination model.
    pub illumination_model: Option<u32>,
    /// The dissolve.
    pub dissolve: Option<GDissolve>,
    /// The specular exponent.
    pub specular_exponent: Option<Seq<char>>,
    /// The optical density.
    pub optical_density: Option<Seq<char>>,
    /// The ambient color map.
    pub ambient_map: Option<GTexMap>,
    /// The diffuse color map.
    pub diffuse_map: Option<GTexMap>,
    /// The specular color map.
    pub specular_map: Option<GTexMap>,
    /// The emissive color map.
    pub emissive_map: Option<GTexMap>,
    /// The dissolve map.
    pub dissolve_map: Option<GTexMap>,
    /// The bump map.
    pub bump_map: Option<GTexMap>,
}

/// The model of an optional color.
pub open spec fn opt_color_model(o: Option<MtlColor>) -> Option<GMtlColor> {
    match o {
        Some(c) => Some(color_model(c)),
        None => None,
    }
}

/// The model of an optional dissolve.
pub open spec fn opt_dissolve_model(o: Option<Dissolve>) -> Option<GDissolve> {
    match o {
        Some(d) => Some(dissolve_model(d)),
        None => None,
    }
}

/// The model of an optional token.
pub open spec fn opt_str_model(o: Option<String>) -> Option<Seq<char>> {
    match o {
        Some(s) => Some(s@),
        None => None,
    }
}

/// The model of an optional texture map.
pub open spec fn opt_texmap_model(o: Option<MtlTextureMap>) -> Option<GTexMap> {
    match o {
        Some(m) => Some(m.model()),
        None => None,
    }
}

impl Material {
    /// The material's model.
    pub open spec fn model(&self) -> GMaterial {
        GMaterial {
            ambient: opt_color_model(self.ambient),
            diffuse: opt_color_model(self.diffuse),
            specular: opt_color_model(self.specular),
            emissive: opt_color_model(self.emissive),
            transmission_filter: opt_color_model(self.transmission_filter),
            illumination_model: self.illumination_model,
            dissolve: opt_dissolve_model(self.dissolve),
            specular_exponent: opt_str_model(self.specular_exponent),
            optical_density: opt_str_model(self.optical_density),
            ambient_map: opt_texmap_model(self.ambient_map),
            diffuse_map: opt_texmap_model(self.diffuse_map),
            specular_map: opt_texmap_model(self.specular_map),
            emissive_map: opt_texmap_model(self.emissive_map),
            dissolve_map: opt_texmap_model(self.dissolve_map),
            bump_map: opt_texmap_model(self.bump_map),
        }
    }
}

/// A material with nothing given.
pub open spec fn gmaterial_default() -> GMaterial {
    GMaterial {
        ambient: None,
        diffuse: None,
        specular: None,
        emissive: None,
        transmission_filter: None,
        illumination_model: None,
        dissolve: None,
        specular_exponent: None,
        optical_density: None,
        ambient_map: None,
        diffuse_map: None,
        specular_map: None,
        emissive_map: None,
        dissolve_map: None,
        bump_map: None,
    }
}

impl Default for Material {
    /// A material with nothing given.
    fn default() -> (r: Material)
        ensures
            r.model() == gmaterial_default(),
    {
        Material {
            ambient: None,
            diffuse: None,
            specular: None,
            emissive: None,
            transmission_filter: None,
            illumination_model: None,
            dissolve: None,
            specular_exponent: None,
            optical_density: None,
            ambient_map: None,
            diffuse_map: None,
            specular_map: None,
            emissive_map: None,
            dissolve_map: None,
            bump_map: None,
        }
    }
}

/// The materials of a document, keyed by name, in first-seen order.
#[derive(Debug, PartialEq)]
pub struct MtlMap {
    entries: Vec<(String, Material)>,
}

impl MtlMap {
    /// The map's model: its name/material pairs, in order.
    pub closed spec fn model(&self) -> Seq<(Seq<char>, GMaterial)> {
        self.entries@.map(|i: int, e: (String, Material)| (e.0@, e.1.model()))
    }

    /// An empty map.
    fn empty() -> (r: MtlMap)
        ensures
            r.model() == Seq::<(Seq<char>, GMaterial)>::empty(),
    {
        let r = MtlMap { entries: Vec::new() };
        proof {
            assert(r.model() =~= Seq::<(Seq<char>, GMaterial)>::empty());
        }
        r
    }

    /// How many materials the map holds.
    pub fn len(&self) -> (n: usize)
        ensures
            n == self.model().len(),
    {
        self.entries.len()
    }

    /// The index of `name` among the keys, or the map's size if absent.
    fn find(&self, name: &Vec<char>) -> (r: usize)
        ensures
            r == find_key(self.model(), name@),
    {
        let mut i: usize = 0;
        while i < self.entries.len()
            invariant
                i <= self.entries@.len(),
                forall|j: int| 0 <= j < i ==> (#[trigger] self.model()[j]).0 != name@,
            decreases self.entries@.len() - i,
        {
            if chars_eq_str(name, self.entries[i].0.as_str()) {
                proof {
                    assert(self.model()[i as int].0 == name@);
                    lemma_find_key_unique(self.model(), name@, i as int);
                }
                return i;
            }
            proof {
                assert(self.model()[i as int].0 == self.entries@[i as int].0@);
            }
            i += 1;
        }
        proof {
            lemma_find_key_unique(self.model(), name@, self.model().len() as int);
        }
        i
    }

    /// The material stored under `name`, if any.
    pub fn get(&self, name: &str) -> (r: Option<&Material>)
        ensures
            match r {
                Some(m) => has_key(self.model(), name@) && m.model() == key_value(
                    self.model(),
                    name@,
                ),
                None => !has_key(self.model(), name@),
            },
    {
        let nm = to_chars(name);
        let i = self.find(&nm);
        if i < self.entries.len() {
            proof {
                assert(self.model()[i as int].1 == self.entries@[i as int].1.model());
            }
            Some(&self.entries[i].1)
        } else {
            None
        }
    }

    /// Stores `mat` under `name`, replacing any previous material of that
    /// name.
    fn insert(&mut self, name: &String, mat: Material)
        ensures
            final(self).model() == assoc_insert(old(self).model(), name@, mat.model()),
    {
        let nm = to_chars(name.as_str());
        let i = self.find(&nm);
        let ghost m0 = self.model();
        proof {
            crate::raw::object::lemma_find_key(m0, name@);
        }
        if i < self.entries.len() {
            let mut e = self.entries.remove(i);
            e.1 = mat;
            self.entries.insert(i, e);
            proof {
                assert(m0[i as int].0 == name@);
                assert(self.model() =~= m0.update(i as int, (name@, mat.model())));
            }
        } else {
            self.entries.push((name.clone(), mat));
            proof {
                assert(self.model() =~= m0.push((name@, mat.model())));
            }
        }
    }
}

/// A keyword the MTL format defines but this library does not model; a
/// statement with one is out of the parser's domain.
pub open spec fn mtl_stmt_unsupported(st: GStmt) -> bool {
    ||| st.keyword == "Km"@
    ||| st.keyword == "map_aat"@
    ||| st.keyword == "map_refl"@
    ||| st.keyword == "disp"@
    ||| st.keyword == "refl"@
}

/// No statement is out of the parser's domain.
pub open spec fn mtl_all_supported(stmts: Seq<GStmt>) -> bool {
    forall|i: int| 0 <= i < stmts.len() ==> !mtl_stmt_unsupported(#[trigger] stmts[i])
}

/// The state of an MTL parse: the materials collected so far, and the name
/// and fields of the material being accumulated.
pub struct GMtlState {
    /// The materials collected so far.
    pub materials: Seq<(Seq<char>, GMaterial)>,
    /// The name of the material being accumulated, once a `newmtl` was seen.
    pub name: Option<Seq<char>>,
    /// The material being accumulated.
    pub mat: GMaterial,
}

/// The parse state before any statement.
pub open spec fn gmtl_init() -> GMtlState {
    GMtlState { materials: Seq::empty(), name: None, mat: gmaterial_default() }
}

/// Flushes the accumulating material into the map, if it has a name.
pub open spec fn gmtl_flush(s: GMtlState) -> Seq<(Seq<char>, GMaterial)> {
    match s.name {
        Some(nm) => assoc_insert(s.materials, nm, s.mat),
        None => s.materials,
    }
}

/// What one statement does to the MTL parse state.
pub open spec fn mtl_step(s: GMtlState, st: GStmt) -> Result<GMtlState, ErrModel> {
    let kw = st.keyword;
    let args = st.args;
    if kw == "newmtl"@ {
        if args.len() == 1 {
            Ok(GMtlState { materials: gmtl_flush(s), name: Some(args[0]), mat: gmaterial_default() })
        } else {
            Err(ErrModel::Load(LoadErrorKind::WrongNumberOfArguments))
        }
    } else if kw == "Ka"@ {
        match parse_color_spec(args) {
            Err(e) => Err(e),
            Ok(c) => Ok(GMtlState { mat: GMaterial { ambient: Some(c), ..s.mat }, ..s }),
        }
    } else if kw == "Kd"@ {
        match parse_color_spec(args) {
            Err(e) => Err(e),
            Ok(c) => Ok(GMtlState { mat: GMaterial { diffuse: Some(c), ..s.mat }, ..s }),
        }
    } else if kw == "Ks"@ {
        match parse_color_spec(args) {
            Err(e) => Err(e),
            Ok(c) => Ok(GMtlState { mat: GMaterial { specular: Some(c), ..s.mat }, ..s }),
        }
    } else if kw == "Ke"@ {
        match parse_color_spec(args) {
            Err(e) => Err(e),
            Ok(c) => Ok(GMtlState { mat: GMaterial { emissive: Some(c), ..s.mat }, ..s }),
        }
    } else if kw == "Km"@ {
        arbitrary()
    } else if kw == "Tf"@ {
        match parse_color_spec(args) {
            Err(e) => Err(e),
            Ok(c) => Ok(
                GMtlState { mat: GMaterial { transmission_filter: Some(c), ..s.mat }, ..s },
            ),
        }
    } else if kw == "Ns"@ {
        if args.len() == 1 {
            if is_float_token(args[0]) {
                Ok(GMtlState { mat: GMaterial { specular_exponent: Some(args[0]), ..s.mat }, ..s })
            } else {
                Err(ErrModel::ParseFloat)
            }
        } else {
            Err(ErrModel::Load(LoadErrorKind::WrongNumberOfArguments))
        }
    } else if kw == "Ni"@ {
        if args.len() == 1 {
            if is_float_token(args[0]) {
                Ok(GMtlState { mat: GMaterial { optical_density: Some(args[0]), ..s.mat }, ..s })
            } else {
                Err(ErrModel::ParseFloat)
            }
        } else {
            Err(ErrModel::Load(LoadErrorKind::WrongNumberOfArguments))
        }
    } else if kw == "illum"@ {
        if args.len() == 1 {
            match parse_u32_spec(args[0]) {
                Err(k) => Err(ErrModel::ParseInt(k)),
                Ok(v) => Ok(
                    GMtlState {
                        mat: GMaterial { illumination_model: Some(v as u32), ..s.mat },
                        ..s
                    },
                ),
            }
        } else {
            Err(ErrModel::Load(LoadErrorKind::WrongNumberOfArguments))
        }
    } else if kw == "d"@ {
        if args.len() == 1 {
            if is_float_token(args[0]) {
                Ok(
                    GMtlState {
                        mat: GMaterial { dissolve: Some(GDissolve::Value(args[0])), ..s.mat },
                        ..s
                    },
                )
            } else {
                Err(ErrModel::ParseFloat)
            }
        } else {
            Err(ErrModel::Load(LoadErrorKind::WrongNumberOfArguments))
        }
    } else if kw == "Tr"@ {
        if args.len() == 1 {
            if is_float_token(args[0]) {
                Ok(
                    GMtlState {
                        mat: GMaterial { dissolve: Some(GDissolve::Complement(args[0])), ..s.mat },
                        ..s
                    },
                )
            } else {
                Err(ErrModel::ParseFloat)
            }
        } else {
            Err(ErrModel::Load(LoadErrorKind::WrongNumberOfArguments))
        }
    } else if kw == "map_Ka"@ {
        match parse_texture_map_spec(args) {
            Err(e) => Err(e),
            Ok(m) => Ok(GMtlState { mat: GMaterial { ambient_map: Some(m), ..s.mat }, ..s }),
        }
    } else if kw == "map_Kd"@ {
        match parse_texture_map_spec(args) {
            Err(e) => Err(e),
            Ok(m) => Ok(GMtlState { mat: GMaterial { diffuse_map: Some(m), ..s.mat }, ..s }),
        }
    } else if kw == "map_Ks"@ {
        match parse_texture_map_spec(args) {
            Err(e) => Err(e),
            Ok(m) => Ok(GMtlState { mat: GMaterial { specular_map: Some(m), ..s.mat }, ..s }),
        }
    } else if kw == "map_Ke"@ {
        match parse_texture_map_spec(args) {
            Err(e) => Err(e),
            Ok(m) => Ok(GMtlState { mat: GMaterial { emissive_map: Some(m), ..s.mat }, ..s }),
        }
    } else if kw == "map_d"@ {
        match parse_texture_map_spec(args) {
            Err(e) => Err(e),
            Ok(m) => Ok(GMtlState { mat: GMaterial { dissolve_map: Some(m), ..s.mat }, ..s }),
        }
    } else if kw == "map_aat"@ || kw == "map_refl"@ {
        arbitrary()
    } else if kw == "map_bump"@ || kw == "map_Bump"@ || kw == "bump"@ {
        match parse_texture_map_spec(args) {
            Err(e) => Err(e),
            Ok(m) => Ok(GMtlState { mat: GMaterial { bump_map: Some(m), ..s.mat }, ..s }),
        }
    } else if kw == "disp"@ || kw == "refl"@ {
        arbitrary()
    } else {
        Err(ErrModel::Load(LoadErrorKind::UnexpectedStatement))
    }
}

/// The MTL parse state after the given statements, or the first error.
pub open spec fn mtl_fold(stmts: Seq<GStmt>) -> Result<GMtlState, ErrModel>
    decreases stmts.len(),
{
    if stmts.len() == 0 {
        Ok(gmtl_init())
    } else {
        match mtl_fold(stmts.drop_last()) {
            Err(e) => Err(e),
            Ok(s) => mtl_step(s, stmts.last()),
        }
    }
}

/// What parsing an MTL source yields: its statements folded over the
/// initial state, with the last accumulating material flushed at the end.
pub open spec fn parse_mtl_spec(input: Seq<char>) -> Result<Seq<(Seq<char>, GMaterial)>, ErrModel> {
    match lex_spec(input) {
        Err(e) => Err(ErrModel::Load(LoadErrorKind::BackslashAtEOF)),
        Ok(stmts) => match mtl_fold(stmts) {
            Err(e) => Err(e),
            Ok(s) => Ok(gmtl_flush(s)),
        },
    }
}

/// Low-level binding for the MTL format: the parsed material library.
#[derive(Debug, PartialEq)]
pub struct RawMtl {
    /// The materials, by name.
    pub materials: MtlMap,
}

/// The running state of an MTL parse.
struct MtlState {
    materials: MtlMap,
    name: Option<String>,
    mat: Material,
}

impl MtlState {
    /// The state's model.
    spec fn model(&self) -> GMtlState {
        GMtlState {
            materials: self.materials.model(),
            name: match self.name {
                Some(ref s) => Some(s@),
                None => None,
            },
            mat: self.mat.model(),
        }
    }
}

/// Flushes the accumulating material into the map, if it has a name.
fn flush_material(st: &mut MtlState)
    ensures
        final(st).model() == (GMtlState {
            materials: gmtl_flush(old(st).model()),
            name: None,
            mat: gmaterial_default(),
        }),
{
    let mut taken: Option<String> = None;
    core::mem::swap(&mut st.name, &mut taken);
    match taken {
        Some(nm) => {
            let mut mat = Material::default();
            core::mem::swap(&mut st.mat, &mut mat);
            st.materials.insert(&nm, mat);
        },
        None => {
            st.mat = Material::default();
        },
    }
}

/// Applies one statement to the MTL parse state, as `mtl_step` describes.
#[verifier::rlimit(50)]
fn apply_mtl_statement(st: &mut MtlState, stmt: &Statement) -> (r: Result<(), ObjError>)
    requires
        !mtl_stmt_unsupported(stmt.model()),
    ensures
        match r {
            Ok(()) => mtl_step(old(st).model(), stmt.model()) == Ok::<GMtlState, ErrModel>(
                final(st).model(),
            ),
            Err(e) => mtl_step(old(st).model(), stmt.model()) == Err::<GMtlState, ErrModel>(
                err_model(e),
            ),
        },
{
    let ghost s0 = old(st).model();
    let ghost gs = stmt.model();
    let kw = &stmt.keyword;
    let args = &stmt.args;
    proof {
        assert(gs.args =~= lines_model(stmt.args@));
    }
    if chars_eq_str(kw, "newmtl") {
        if args.len() == 1 {
            flush_material(st);
            proof {
                assert(gs.args[0] == args@[0]@);
            }
            st.name = Some(chars_to_string(&args[0]));
            return Ok(());
        } else {
            flush_material(st);
            return Err(
                ObjError::Load(
                    LoadError::new(LoadErrorKind::WrongNumberOfArguments, "Expected exactly 1 argument"),
                ),
            );
        }
    } else if chars_eq_str(kw, "Ka") {
        match parse_color(args) {
            Err(e) => Err(e),
            Ok(c) => {
                st.mat.ambient = Some(c);
                Ok(())
            },
        }
    } else if chars_eq_str(kw, "Kd") {
        match parse_color(args) {
            Err(e) => Err(e),
            Ok(c) => {
                st.mat.diffuse = Some(c);
                Ok(())
            },
        }
    } else if chars_eq_str(kw, "Ks") {
        match parse_color(args) {
            Err(e) => Err(e),
            Ok(c) => {
                st.mat.specular = Some(c);
                Ok(())
            },
        }
    } else if chars_eq_str(kw, "Ke") {
        match parse_color(args) {
            Err(e) => Err(e),
            Ok(c) => {
                st.mat.emissive = Some(c);
                Ok(())
            },
        }
    } else if chars_eq_str(kw, "Km") {
        proof {
            assert(false);
        }
        vstd::pervasive::unreached()
    } else if chars_eq_str(kw, "Tf") {
        match parse_color(args) {
            Err(e) => Err(e),
            Ok(c) => {
                st.mat.transmission_filter = Some(c);
                Ok(())
            },
        }
    } else if chars_eq_str(kw, "Ns") {
        if args.len() == 1 {
            proof {
                assert(gs.args[0] == args@[0]@);
            }
            if check_float_token(&args[0]) {
                st.mat.specular_exponent = Some(chars_to_string(&args[0]));
                Ok(())
            } else {
                Err(ObjError::ParseFloat)
            }
        } else {
            Err(
                ObjError::Load(
                    LoadError::new(LoadErrorKind::WrongNumberOfArguments, "Expected exactly 1 argument"),
                ),
            )
        }
    } else if chars_eq_str(kw, "Ni") {
        if args.len() == 1 {
            proof {
                assert(gs.args[0] == args@[0]@);
            }
            if check_float_token(&args[0]) {
                st.mat.optical_density = Some(chars_to_string(&args[0]));
                Ok(())
            } else {
                Err(ObjError::ParseFloat)
            }
        } else {
            Err(
                ObjError::Load(
                    LoadError::new(LoadErrorKind::WrongNumberOfArguments, "Expected exactly 1 argument"),
                ),
            )
        }
    } else if chars_eq_str(kw, "illum") {
        if args.len() == 1 {
            proof {
                assert(gs.args[0] == args@[0]@);
            }
            match parse_u32(&args[0]) {
                Err(k) => Err(ObjError::ParseInt(k)),
                Ok(v) => {
                    st.mat.illumination_model = Some(v);
                    Ok(())
                },
            }
        } else {
            Err(
                ObjError::Load(
                    LoadError::new(LoadErrorKind::WrongNumberOfArguments, "Expected exactly 1 argument"),
                ),
            )
        }
    } else if chars_eq_str(kw, "d") {
        if args.len() == 1 {
            proof {
                assert(gs.args[0] == args@[0]@);
            }
            if check_float_token(&args[0]) {
                st.mat.dissolve = Some(Dissolve::Value(chars_to_string(&args[0])));
                Ok(())
            } else {
                Err(ObjError::ParseFloat)
            }
        } else {
            Err(
                ObjError::Load(
                    LoadError::new(LoadErrorKind::WrongNumberOfArguments, "Expected exactly 1 argument"),
                ),
            )
        }
    } else if chars_eq_str(kw, "Tr") {
        if args.len() == 1 {
            proof {
                assert(gs.args[0] == args@[0]@);
            }
            if check_float_token(&args[0]) {
                st.mat.dissolve = Some(Dissolve::Complement(chars_to_string(&args[0])));
                Ok(())
            } else {
                Err(ObjError::ParseFloat)
            }
        } else {
            Err(
                ObjError::Load(
                    LoadError::new(LoadErrorKind::WrongNumberOfArguments, "Expected exactly 1 argument"),
                ),
            )
        }
    } else if chars_eq_str(kw, "map_Ka") {
        match parse_texture_map(args) {
            Err(e) => Err(e),
            Ok(m) => {
                st.mat.ambient_map = Some(m);
                Ok(())
            },
        }
    } else if chars_eq_str(kw, "map_Kd") {
        match parse_texture_map(args) {
            Err(e) => Err(e),
            Ok(m) => {
                st.mat.diffuse_map = Some(m);
                Ok(())
            },
        }
    } else if chars_eq_str(kw, "map_Ks") {
        match parse_texture_map(args) {
            Err(e) => Err(e),
            Ok(m) => {
                st.mat.specular_map = Some(m);
                Ok(())
            },
        }
    } else if chars_eq_str(kw, "map_Ke") {
        match parse_texture_map(args) {
            Err(e) => Err(e),
            Ok(m) => {
                st.mat.emissive_map = Some(m);
                Ok(())
            },
        }
    } else if chars_eq_str(kw, "map_d") {
        match parse_texture_map(args) {
            Err(e) => Err(e),
            Ok(m) => {
                st.mat.dissolve_map = Some(m);
                Ok(())
            },
        }
    } else if chars_eq_str(kw, "map_aat") || chars_eq_str(kw, "map_refl") {
        proof {
            assert(false);
        }
        vstd::pervasive::unreached()
    } else if chars_eq_str(kw, "map_bump") || chars_eq_str(kw, "map_Bump") || chars_eq_str(
        kw,
        "bump",
    ) {
        match parse_texture_map(args) {
            Err(e) => Err(e),
            Ok(m) => {
                st.mat.bump_map = Some(m);
                Ok(())
            },
        }
    } else if chars_eq_str(kw, "disp") || chars_eq_str(kw, "refl") {
        proof {
            assert(false);
        }
        vstd::pervasive::unreached()
    } else {
        Err(
            ObjError::Load(
                LoadError::new(LoadErrorKind::UnexpectedStatement, "Received unknown statement"),
            ),
        )
    }
}

/// A failed prefix decides the whole fold.
proof fn lemma_mtl_fold_prefix_err(stmts: Seq<GStmt>, i: int)
    requires
        0 <= i <= stmts.len(),
        mtl_fold(stmts.take(i)) is Err,
    ensures
        mtl_fold(stmts) == mtl_fold(stmts.take(i)),
    decreases stmts.len() - i,
{
    if i == stmts.len() {
        assert(stmts.take(i) =~= stmts);
    } else {
        assert(stmts.take(i + 1).drop_last() =~= stmts.take(i));
        lemma_mtl_fold_prefix_err(stmts, i + 1);
    }
}

/// Parses a Wavefront MTL source text.
///
/// The source must not hold the legacy statements this library does not
/// model; see [`mtl_stmt_unsupported`].
pub fn parse_mtl(input: &str) -> (r: ObjResult<RawMtl>)
    requires
        lex_spec(input@) matches Ok(stmts) ==> mtl_all_supported(stmts),
    ensures
        match r {
            Ok(mtl) => parse_mtl_spec(input@) == Ok::<Seq<(Seq<char>, GMaterial)>, ErrModel>(
                mtl.materials.model(),
            ),
            Err(e) => parse_mtl_spec(input@) == Err::<Seq<(Seq<char>, GMaterial)>, ErrModel>(
                err_model(e),
            ),
        },
{
    let stmts = match lex(input) {
        Err(e) => {
            return Err(e);
        },
        Ok(s) => s,
    };
    let ghost sm = stmts_model(stmts@);
    let mut st = MtlState { materials: MtlMap::empty(), name: None, mat: Material::default() };
    proof {
        assert(st.model() == gmtl_init());
        assert(sm.take(0) =~= Seq::<GStmt>::empty());
    }
    let mut i: usize = 0;
    while i < stmts.len()
        invariant
            i <= stmts@.len(),
            sm == stmts_model(stmts@),
            lex_spec(input@) == Ok::<Seq<GStmt>, ()>(sm),
            mtl_all_supported(sm),
            mtl_fold(sm.take(i as int)) == Ok::<GMtlState, ErrModel>(st.model()),
        decreases stmts@.len() - i,
    {
        proof {
            assert(sm[i as int] == stmts@[i as int].model());
        }
        match apply_mtl_statement(&mut st, &stmts[i]) {
            Ok(()) => {
                proof {
                    assert(sm.take(i + 1 as int).drop_last() =~= sm.take(i as int));
                    assert(sm.take(i + 1 as int).last() == sm[i as int]);
                }
            },
            Err(e) => {
                proof {
                    assert(sm.take(i + 1 as int).drop_last() =~= sm.take(i as int));
                    assert(sm.take(i + 1 as int).last() == sm[i as int]);
                    assert(mtl_fold(sm.take(i + 1 as int)) == Err::<GMtlState, ErrModel>(
                        err_model(e),
                    ));
                    lemma_mtl_fold_prefix_err(sm, i + 1);
                }
                return Err(e);
            },
        }
        i += 1;
    }
    proof {
        assert(sm.take(stmts@.len() as int) =~= sm);
    }
    flush_material(&mut st);
    let MtlState { materials, name, mat } = st;
    let _ = name;
    let _ = mat;
    Ok(RawMtl { materials })
}

} // verus!
