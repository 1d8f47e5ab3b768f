//! Command signatures and the binding discipline that resolves actual
//! arguments against a signature into a ready-to-run call.

use vstd::prelude::*;

use crate::span::Span;
use crate::value::{clone_error, spec_span, ErrorView, ShellError, Type, Value, ValueView};

verus! {

/// The declared shape of an argument.
#[derive(Debug, Clone, Copy, PartialEq, Eq, Structural)]
pub enum SyntaxShape {
    Any,
    String,
}

/// A value together with the source span it came from.
#[derive(Debug, Clone, PartialEq)]
pub struct Spanned<T> {
    pub item: T,
    pub span: Span,
}

/// A declared positional parameter.
#[derive(Debug, Clone, PartialEq)]
pub struct PositionalArg {
    pub name: String,
    pub shape: SyntaxShape,
    pub desc: String,
}

pub ghost struct PositionalArgView {
    pub name: Seq<char>,
    pub shape: SyntaxShape,
    pub desc: Seq<char>,
}

impl View for PositionalArg {
    type V = PositionalArgView;

    open spec fn view(&self) -> PositionalArgView {
        PositionalArgView { name: self.name@, shape: self.shape, desc: self.desc@ }
    }
}

/// A declared switch, matched by long name or by a one-letter alias.
#[derive(Debug, Clone, PartialEq)]
pub struct Flag {
    pub long: String,
    pub short: Option<char>,
    pub desc: String,
}

pub ghost struct FlagView {
    pub long: Seq<char>,
    pub short: Option<char>,
    pub desc: Seq<char>,
}

impl View for Flag {
    type V = FlagView;

    open spec fn view(&self) -> FlagView {
        FlagView { long: self.long@, short: self.short, desc: self.desc@ }
    }
}

/// A command's accepted arguments: required positionals first, then
/// optional ones, then an optional variadic rest, plus a set of switches.
#[derive(Debug, Clone, PartialEq)]
pub struct Signature {
    pub name: String,
    pub usage: String,
    pub required_positional: Vec<PositionalArg>,
    pub optional_positional: Vec<PositionalArg>,
    pub rest_positional: Option<PositionalArg>,
    pub named: Vec<Flag>,
}

pub ghost struct SignatureView {
    pub name: Seq<char>,
    pub usage: Seq<char>,
    pub required: Seq<PositionalArgView>,
    pub optional: Seq<PositionalArgView>,
    pub rest: Option<PositionalArgView>,
    pub named: Seq<FlagView>,
}

impl View for Signature {
    type V = SignatureView;

    open spec fn view(&self) -> SignatureView {
        SignatureView {
            name: self.name@,
            usage: self.usage@,
            required: Seq::new(
                self.required_positional@.len(),
                |i: int| self.required_positional@[i]@,
            ),
            optional: Seq::new(
                self.optional_positional@.len(),
                |i: int| self.optional_positional@[i]@,
            ),
            rest: match self.rest_positional {
                Some(p) => Some(p@),
                None => None,
            },
            named: Seq::new(self.named@.len(), |i: int| self.named@[i]@),
        }
    }
}

/// Flag names must be unique within one signature.
pub open spec fn sig_flags_unique(s: SignatureView) -> bool {
    forall|i: int, j: int|
        0 <= i < j < s.named.len() ==> (#[trigger] s.named[i]).long != (#[trigger] s.named[j]).long
}

impl Signature {
    /// Starts a signature that accepts no arguments at all.
    pub fn build(name: &str) -> (s: Signature)
        ensures
            s@.name == name@,
            s@.usage == Seq::<char>::empty(),
            s@.required == Seq::<PositionalArgView>::empty(),
            s@.optional == Seq::<PositionalArgView>::empty(),
            s@.rest is None,
            s@.named == Seq::<FlagView>::empty(),
    {
        let s = Signature {
            name: name.to_owned(),
            usage: String::new(),
            required_positional: Vec::new(),
            optional_positional: Vec::new(),
            rest_positional: None,
            named: Vec::new(),
        };
        proof {
            assert(s@.required =~= Seq::<PositionalArgView>::empty());
            assert(s@.optional =~= Seq::<PositionalArgView>::empty());
            assert(s@.named =~= Seq::<FlagView>::empty());
        }
        s
    }

    /// Declares the next required positional parameter.
    pub fn required(self, name: &str, shape: SyntaxShape, desc: &str) -> (s: Signature)
        ensures
            s@.required =~= self@.required + seq![
                PositionalArgView { name: name@, shape, desc: desc@ },
            ],
            s@.name == self@.name,
            s@.usage == self@.usage,
            s@.optional == self@.optional,
            s@.rest == self@.rest,
            s@.named == self@.named,
    {
        let mut required_positional = self.required_positional;
        required_positional.push(
            PositionalArg { name: name.to_owned(), shape, desc: desc.to_owned() },
        );
        let s = Signature {
            name: self.name,
            usage: self.usage,
            required_positional,
            optional_positional: self.optional_positional,
            rest_positional: self.rest_positional,
            named: self.named,
        };
        proof {
            assert(s@.optional =~= self@.optional);
            assert(s@.named =~= self@.named);
        }
        s
    }

    /// Declares a boolean switch with an optional one-letter alias.
    pub fn switch(self, name: &str, desc: &str, short: Option<char>) -> (s: Signature)
        ensures
            s@.named =~= self@.named + seq![FlagView { long: name@, short, desc: desc@ }],
            s@.name == self@.name,
            s@.usage == self@.usage,
            s@.required == self@.required,
            s@.optional == self@.optional,
            s@.rest == self@.rest,
    {
        let mut named = self.named;
        named.push(Flag { long: name.to_owned(), short, desc: desc.to_owned() });
        let s = Signature {
            name: self.name,
            usage: self.usage,
            required_positional: self.required_positional,
            optional_positional: self.optional_positional,
            rest_positional: self.rest_positional,
            named,
        };
        proof {
            assert(s@.required =~= self@.required);
            assert(s@.optional =~= self@.optional);
        }
        s
    }

    /// Declares the variadic rest parameter.
    pub fn rest(self, name: &str, shape: SyntaxShape, desc: &str) -> (s: Signature)
        ensures
            s@.rest == Some(PositionalArgView { name: name@, shape, desc: desc@ }),
            s@.name == self@.name,
            s@.usage == self@.usage,
            s@.required == self@.required,
            s@.optional == self@.optional,
            s@.named == self@.named,
    {
        let s = Signature {
            name: self.name,
            usage: self.usage,
            required_positional: self.required_positional,
            optional_positional: self.optional_positional,
            rest_positional: Some(
                PositionalArg { name: name.to_owned(), shape, desc: desc.to_owned() },
            ),
            named: self.named,
        };
        proof {
            assert(s@.required =~= self@.required);
            assert(s@.optional =~= self@.optional);
            assert(s@.named =~= self@.named);
        }
        s
    }
}

/// A resolved invocation: head span, bound positional values, bound flags.
/// Binding is total before a command runs, so a command never sees a
/// partially typed argument list.
#[derive(Debug, PartialEq)]
pub struct Call {
    pub head: Span,
    pub positional: Vec<Value>,
    pub named: Vec<Spanned<String>>,
}

pub ghost struct CallView {
    pub head: Span,
    pub positional: Seq<ValueView>,
    pub named: Seq<(Seq<char>, Span)>,
}

impl View for Call {
    type V = CallView;

    open spec fn view(&self) -> CallView {
        CallView {
            head: self.head,
            positional: crate::value::vview_seq(self.positional@),
            named: Seq::new(self.named@.len(), |i: int| (self.named@[i].item@, self.named@[i].span)),
        }
    }
}

/// A raw argument token, before binding.
pub open spec fn tok_view(t: Spanned<String>) -> (Seq<char>, Span) {
    (t.item@, t.span)
}

pub open spec fn toks_view(ts: Seq<Spanned<String>>) -> Seq<(Seq<char>, Span)> {
    Seq::new(ts.len(), |i: int| tok_view(ts[i]))
}

/// A token written `--name`.
pub open spec fn is_long_token(t: Seq<char>) -> bool {
    t.len() >= 2 && t[0] == '-' && t[1] == '-'
}

/// A token written `-x` with a single letter.
pub open spec fn is_short_token(t: Seq<char>) -> bool {
    t.len() == 2 && t[0] == '-' && t[1] != '-'
}

/// Whether some declared flag carries this long name.
pub open spec fn has_long(named: Seq<FlagView>, name: Seq<char>) -> bool {
    exists|i: int| 0 <= i < named.len() && (#[trigger] named[i]).long == name
}

/// The long name of the first declared flag with this short alias.
pub open spec fn find_short(named: Seq<FlagView>, c: char) -> Option<Seq<char>>
    decreases named.len(),
{
    if named.len() == 0 {
        None
    } else if named[0].short == Some(c) {
        Some(named[0].long)
    } else {
        find_short(named.drop_first(), c)
    }
}

/// Splits the raw tokens into recognized flags (by long name) and
/// positional tokens, in order; an undeclared flag fails the whole binding.
pub open spec fn spec_classify(toks: Seq<(Seq<char>, Span)>, named: Seq<FlagView>) -> Result<
    (Seq<(Seq<char>, Span)>, Seq<(Seq<char>, Span)>),
    ErrorView,
>
    decreases toks.len(),
{
    if toks.len() == 0 {
        Ok((Seq::empty(), Seq::empty()))
    } else {
        let t = toks[0];
        if is_long_token(t.0) {
            let name = t.0.subrange(2, t.0.len() as int);
            if has_long(named, name) {
                match spec_classify(toks.drop_first(), named) {
                    Ok((f, p)) => Ok((seq![(name, t.1)] + f, p)),
                    Err(e) => Err(e),
                }
            } else {
                Err(ErrorView::UnknownFlag { name, span: t.1 })
            }
        } else if is_short_token(t.0) {
            match find_short(named, t.0[1]) {
                Some(long) => match spec_classify(toks.drop_first(), named) {
                    Ok((f, p)) => Ok((seq![(long, t.1)] + f, p)),
                    Err(e) => Err(e),
                },
                None => Err(ErrorView::UnknownFlag { name: t.0, span: t.1 }),
            }
        } else {
            match spec_classify(toks.drop_first(), named) {
                Ok((f, p)) => Ok((f, seq![t] + p)),
                Err(e) => Err(e),
            }
        }
    }
}

/// Consumes positional tokens left to right: required parameters first,
/// then optional ones, then the rest parameter; a shortfall of required
/// arguments or an excess with no rest parameter fails the binding.
pub open spec fn spec_bind_positionals(
    sig: SignatureView,
    head: Span,
    ptoks: Seq<(Seq<char>, Span)>,
) -> Result<Seq<ValueView>, ErrorView> {
    if ptoks.len() < sig.required.len() {
        Err(
            ErrorView::MissingOrWrongTypeArgument {
                name: sig.required[ptoks.len() as int].name,
                span: head,
            },
        )
    } else if sig.rest is None && ptoks.len() > sig.required.len() + sig.optional.len() {
        Err(
            ErrorView::ExtraPositionalArgument {
                span: ptoks[sig.required.len() + sig.optional.len() as int].1,
            },
        )
    } else {
        Ok(Seq::new(ptoks.len(), |j: int| ValueView::String { val: ptoks[j].0, span: ptoks[j].1 }))
    }
}

/// The whole binding discipline, as one function of the signature, the
/// call's head span and the raw tokens.
pub open spec fn spec_bind(sig: SignatureView, head: Span, toks: Seq<(Seq<char>, Span)>) -> Result<
    CallView,
    ErrorView,
> {
    match spec_classify(toks, sig.named) {
        Err(e) => Err(e),
        Ok((flags, ptoks)) => match spec_bind_positionals(sig, head, ptoks) {
            Err(e) => Err(e),
            Ok(positional) => Ok(CallView { head, positional, named: flags }),
        },
    }
}

/// Prefixes already-classified flags and positionals onto the outcome of
/// classifying the remaining tokens.
pub open spec fn combine_classified(
    f0: Seq<(Seq<char>, Span)>,
    p0: Seq<(Seq<char>, Span)>,
    r: Result<(Seq<(Seq<char>, Span)>, Seq<(Seq<char>, Span)>), ErrorView>,
) -> Result<(Seq<(Seq<char>, Span)>, Seq<(Seq<char>, Span)>), ErrorView> {
    match r {
        Ok((f, p)) => Ok((f0 + f, p0 + p)),
        Err(e) => Err(e),
    }
}

/// The images of a vector of declared flags.
pub open spec fn flags_view(named: Seq<Flag>) -> Seq<FlagView> {
    Seq::new(named.len(), |i: int| named[i]@)
}

fn flag_has_long(named: &Vec<Flag>, name: &String) -> (r: bool)
    ensures
        r == has_long(flags_view(named@), name@),
{
    let mut i: usize = 0;
    while i < named.len()
        invariant
            i <= named@.len(),
            forall|k: int| 0 <= k < i ==> (#[trigger] flags_view(named@)[k]).long != name@,
        decreases named@.len() - i,
    {
        if named[i].long == *name {
            assert(flags_view(named@)[i as int].long == name@);
            return true;
        }
        i = i + 1;
    }
    false
}

fn flag_find_short(named: &Vec<Flag>, c: char) -> (r: Option<String>)
    ensures
        match r {
            Some(long) => find_short(flags_view(named@), c) == Some(long@),
            None => find_short(flags_view(named@), c) is None,
        },
{
    let ghost fv = flags_view(named@);
    proof {
        assert(fv.subrange(0, fv.len() as int) =~= fv);
    }
    let mut i: usize = 0;
    while i < named.len()
        invariant
            i <= named@.len(),
            fv == flags_view(named@),
            find_short(fv, c) == find_short(fv.subrange(i as int, fv.len() as int), c),
        decreases named@.len() - i,
    {
        proof {
            let suffix = fv.subrange(i as int, fv.len() as int);
            assert(suffix[0] == fv[i as int]);
            assert(suffix.drop_first() =~= fv.subrange(i as int + 1, fv.len() as int));
        }
        let found = match named[i].short {
            Some(s) => s == c,
            None => false,
        };
        if found {
            return Some(named[i].long.clone());
        }
        i = i + 1;
    }
    proof {
        assert(fv.subrange(i as int, fv.len() as int).len() == 0);
    }
    None
}

/// Resolves raw argument tokens against a signature: flags are matched by
/// long name or short alias wherever they stand; the remaining tokens fill
/// the required, then the optional, then the rest parameters, left to
/// right. The result is exactly what `spec_bind` says for these tokens.
pub fn bind_call(sig: &Signature, head: Span, args: &Vec<Spanned<String>>) -> (r: Result<
    Call,
    ShellError,
>)
    ensures
        r matches Ok(c) ==> spec_bind(sig@, head, toks_view(args@)) == Ok::<CallView, ErrorView>(
            c@,
        ),
        r matches Err(e) ==> spec_bind(sig@, head, toks_view(args@)) == Err::<CallView, ErrorView>(
            e@,
        ),
{
    let ghost toks = toks_view(args@);
    let ghost named_v = sig@.named;
    proof {
        assert(named_v =~= flags_view(sig.named@));
    }
    let mut flags: Vec<Spanned<String>> = Vec::new();
    let mut ptoks: Vec<Spanned<String>> = Vec::new();
    proof {
        assert(toks.subrange(0, toks.len() as int) =~= toks);
        assert(toks_view(flags@) =~= Seq::<(Seq<char>, Span)>::empty());
        assert(toks_view(ptoks@) =~= Seq::<(Seq<char>, Span)>::empty());
        if let Ok((f, p)) = spec_classify(toks, named_v) {
            assert(toks_view(flags@) + f =~= f);
            assert(toks_view(ptoks@) + p =~= p);
        }
    }
    let mut i: usize = 0;
    while i < args.len()
        invariant
            i <= args@.len(),
            toks == toks_view(args@),
            named_v == sig@.named,
            named_v == flags_view(sig.named@),
            spec_classify(toks, named_v) == combine_classified(
                toks_view(flags@),
                toks_view(ptoks@),
                spec_classify(toks.subrange(i as int, toks.len() as int), named_v),
            ),
        decreases args@.len() - i,
    {
        let ghost suffix = toks.subrange(i as int, toks.len() as int);
        let ghost t = toks[i as int];
        proof {
            assert(suffix[0] == t);
            assert(suffix.drop_first() =~= toks.subrange(i as int + 1, toks.len() as int));
        }
        let s = args[i].item.as_str();
        let n = s.unicode_len();
        if n >= 2 && s.get_char(0) == '-' && s.get_char(1) == '-' {
            assert(is_long_token(t.0));
            let name = String::from_str(s.substring_char(2, n));
            assert(name@ =~= t.0.subrange(2, t.0.len() as int));
            if flag_has_long(&sig.named, &name) {
                let ghost old_flags = toks_view(flags@);
                flags.push(Spanned { item: name, span: args[i].span });
                proof {
                    assert(toks_view(flags@) =~= old_flags + seq![
                        (t.0.subrange(2, t.0.len() as int), t.1),
                    ]);
                    if let Ok((f, p)) = spec_classify(suffix.drop_first(), named_v) {
                        assert(old_flags + (seq![
                            (t.0.subrange(2, t.0.len() as int), t.1),
                        ] + f) =~= toks_view(flags@) + f);
                    }
                }
            } else {
                return Err(ShellError::UnknownFlag { name, span: args[i].span });
            }
        } else if n == 2 && s.get_char(0) == '-' && s.get_char(1) != '-' {
            assert(is_short_token(t.0));
            let c = s.get_char(1);
            match flag_find_short(&sig.named, c) {
                Some(long) => {
                    let ghost old_flags = toks_view(flags@);
                    let ghost long_v = long@;
                    flags.push(Spanned { item: long, span: args[i].span });
                    proof {
                        assert(toks_view(flags@) =~= old_flags + seq![(long_v, t.1)]);
                        if let Ok((f, p)) = spec_classify(suffix.drop_first(), named_v) {
                            assert(old_flags + (seq![(long_v, t.1)] + f) =~= toks_view(flags@)
                                + f);
                        }
                    }
                },
                None => {
                    return Err(
                        ShellError::UnknownFlag { name: args[i].item.clone(), span: args[i].span },
                    );
                },
            }
        } else {
            assert(!is_long_token(t.0) && !is_short_token(t.0));
            let ghost old_ptoks = toks_view(ptoks@);
            ptoks.push(Spanned { item: args[i].item.clone(), span: args[i].span });
            proof {
                assert(toks_view(ptoks@) =~= old_ptoks + seq![t]);
                if let Ok((f, p)) = spec_classify(suffix.drop_first(), named_v) {
                    assert(old_ptoks + (seq![t] + p) =~= toks_view(ptoks@) + p);
                }
            }
        }
        i = i + 1;
    }
    proof {
        assert(toks.subrange(i as int, toks.len() as int).len() == 0);
        assert(toks_view(flags@) + Seq::<(Seq<char>, Span)>::empty() =~= toks_view(flags@));
        assert(toks_view(ptoks@) + Seq::<(Seq<char>, Span)>::empty() =~= toks_view(ptoks@));
        assert(spec_classify(toks, named_v) == Ok::<_, ErrorView>(
            (toks_view(flags@), toks_view(ptoks@)),
        ));
    }
    let nreq = sig.required_positional.len();
    let nopt = sig.optional_positional.len();
    if ptoks.len() < nreq {
        let e = ShellError::MissingOrWrongTypeArgument {
            name: sig.required_positional[ptoks.len()].name.clone(),
            span: head,
        };
        assert(sig@.required[ptoks@.len() as int].name == e->MissingOrWrongTypeArgument_name@);
        return Err(e);
    }
    if sig.rest_positional.is_none() && ptoks.len() - nreq > nopt {
        let e = ShellError::ExtraPositionalArgument { span: ptoks[nreq + nopt].span };
        return Err(e);
    }
    let mut positional: Vec<Value> = Vec::new();
    let mut j: usize = 0;
    while j < ptoks.len()
        invariant
            j <= ptoks@.len(),
            positional@.len() == j,
            forall|k: int|
                0 <= k < j ==> crate::value::vview(#[trigger] positional@[k])
                    == (ValueView::String { val: ptoks@[k].item@, span: ptoks@[k].span }),
        decreases ptoks@.len() - j,
    {
        positional.push(Value::String { val: ptoks[j].item.clone(), span: ptoks[j].span });
        j = j + 1;
    }
    let c = Call { head, positional, named: flags };
    proof {
        crate::value::lemma_vview_seq(c.positional@);
        let expected = spec_bind_positionals(sig@, head, toks_view(ptoks@));
        assert(c@.positional =~= expected->Ok_0);
        assert(c@.named =~= toks_view(flags@));
    }
    Ok(c)
}

/// The error a non-string positional produces: an error value hands its
/// carried error through verbatim; any other value of the wrong shape is
/// refused with a conversion error citing that value's own span.
pub open spec fn wrong_type_err(v: ValueView) -> ErrorView {
    match v {
        ValueView::Error { error } => error,
        _ => ErrorView::CantConvert { expected: Type::String, span: spec_span(v)->Ok_0 },
    }
}

impl Call {
    /// Whether a flag with this long name was given.
    pub fn has_flag(&self, name: &str) -> (r: bool)
        ensures
            r == exists|i: int|
                0 <= i < self@.named.len() && (#[trigger] self@.named[i]).0 == name@,
    {
        let name_owned = name.to_owned();
        let mut i: usize = 0;
        while i < self.named.len()
            invariant
                i <= self.named@.len(),
                self@.named.len() == self.named@.len(),
                name_owned@ == name@,
                forall|k: int| 0 <= k < i ==> (#[trigger] self@.named[k]).0 != name@,
            decreases self.named@.len() - i,
        {
            if self.named[i].item == name_owned {
                assert(self@.named[i as int].0 == name@);
                return true;
            }
            i = i + 1;
        }
        false
    }

    /// The `i`-th bound positional, which must be a string value. A
    /// value of the wrong shape is refused with an error citing that
    /// value's own span; an error value hands its carried error through.
    pub fn req_string(&self, i: usize) -> (r: Result<Spanned<String>, ShellError>)
        ensures
            r is Ok <==> i < self@.positional.len() && self@.positional[i as int] matches
                ValueView::String { .. },
            r matches Ok(s) ==> self@.positional[i as int] == (ValueView::String {
                val: s.item@,
                span: s.span,
            }),
            i >= self@.positional.len() ==> (r matches Err(e) && e@ == (ErrorView::CantConvert {
                expected: Type::String,
                span: self@.head,
            })),
            i < self@.positional.len() && !(self@.positional[i as int] matches ValueView::String {
                ..
            }) ==> (r matches Err(e) && e@ == wrong_type_err(self@.positional[i as int])),
    {
        proof {
            crate::value::lemma_vview_seq(self.positional@);
        }
        if i < self.positional.len() {
            proof {
                crate::value::lemma_vview_variant(self.positional@[i as int]);
            }
            match &self.positional[i] {
                Value::String { val, span } => Ok(Spanned { item: val.clone(), span: *span }),
                Value::Error { error } => Err(clone_error(error)),
                Value::Bool { val, span } => Err(
                    ShellError::CantConvert { expected: Type::String, span: *span },
                ),
                Value::Int { val, span } => Err(
                    ShellError::CantConvert { expected: Type::String, span: *span },
                ),
                Value::Float { bits, span } => Err(
                    ShellError::CantConvert { expected: Type::String, span: *span },
                ),
                Value::List { vals, span } => Err(
                    ShellError::CantConvert { expected: Type::String, span: *span },
                ),
                Value::Record { cols, vals, span } => Err(
                    ShellError::CantConvert { expected: Type::String, span: *span },
                ),
            }
        } else {
            Err(ShellError::CantConvert { expected: Type::String, span: self.head })
        }
    }

    /// All bound positionals from index `from` on, which must all be
    /// string values. The first value of the wrong shape is refused with
    /// an error citing that value's own span; an error value hands its
    /// carried error through.
    pub fn rest_strings(&self, from: usize) -> (r: Result<Vec<Spanned<String>>, ShellError>)
        ensures
            r is Ok <==> (from as int <= self@.positional.len() && forall|j: int|
                from <= j < self@.positional.len() ==> (#[trigger] self@.positional[j]) matches
                    ValueView::String { .. }),
            r matches Ok(v) ==> {
                &&& v@.len() == self@.positional.len() - from
                &&& forall|j: int|
                    from <= j < self@.positional.len() ==> (#[trigger] self@.positional[j])
                        == (ValueView::String {
                        val: v@[j - from].item@,
                        span: v@[j - from].span,
                    })
            },
            from as int > self@.positional.len() ==> (r matches Err(e) && e@
                == (ErrorView::CantConvert { expected: Type::String, span: self@.head })),
            r is Err && from as int <= self@.positional.len() ==> (r matches Err(e)
                && exists|j: int|
                {
                    &&& from <= j < self@.positional.len()
                    &&& !((#[trigger] self@.positional[j]) matches ValueView::String { .. })
                    &&& forall|m: int|
                        from <= m < j ==> ((#[trigger] self@.positional[m]) matches
                            ValueView::String { .. })
                    &&& e@ == wrong_type_err(self@.positional[j])
                }),
    {
        proof {
            crate::value::lemma_vview_seq(self.positional@);
        }
        if from > self.positional.len() {
            return Err(
                ShellError::CantConvert { expected: crate::value::Type::String, span: self.head },
            );
        }
        let mut out: Vec<Spanned<String>> = Vec::new();
        let mut i: usize = from;
        while i < self.positional.len()
            invariant
                from <= i <= self.positional@.len(),
                self@.positional.len() == self.positional@.len(),
                self@.positional == crate::value::vview_seq(self.positional@),
                forall|j: int|
                    0 <= j < self.positional@.len() ==> #[trigger] crate::value::vview_seq(
                        self.positional@,
                    )[j] == crate::value::vview(self.positional@[j]),
                out@.len() == i - from,
                forall|j: int|
                    from <= j < i ==> (#[trigger] self@.positional[j]) == (ValueView::String {
                        val: out@[j - from].item@,
                        span: out@[j - from].span,
                    }),
            decreases self.positional@.len() - i,
        {
            proof {
                crate::value::lemma_vview_variant(self.positional@[i as int]);
                assert(self@.positional[i as int] == crate::value::vview(
                    self.positional@[i as int],
                ));
            }
            let e: ShellError;
            match &self.positional[i] {
                Value::String { val, span } => {
                    out.push(Spanned { item: val.clone(), span: *span });
                    i = i + 1;
                    continue;
                },
                Value::Error { error } => {
                    e = clone_error(error);
                },
                Value::Bool { val, span } => {
                    e = ShellError::CantConvert { expected: Type::String, span: *span };
                },
                Value::Int { val, span } => {
                    e = ShellError::CantConvert { expected: Type::String, span: *span };
                },
                Value::Float { bits, span } => {
                    e = ShellError::CantConvert { expected: Type::String, span: *span };
                },
                Value::List { vals, span } => {
                    e = ShellError::CantConvert { expected: Type::String, span: *span };
                },
                Value::Record { cols, vals, span } => {
                    e = ShellError::CantConvert { expected: Type::String, span: *span };
                },
            }
            proof {
                assert(!(self@.positional[i as int] matches ValueView::String { .. }));
                assert(e@ == wrong_type_err(self@.positional[i as int]));
            }
            return Err(e);
        }
        Ok(out)
    }
}

} // verus!
