//! The arguments that a message asks for, and the roles it uses them in.

use vstd::prelude::*;
use crate::ast::{
    message_view, plural_cases_view, select_cases_view, token_view, ArgType, PluralCase,
    PluralCaseModel, SelectCase, SelectCaseModel, Token, TokenModel,
};

verus! {

/// One use of an argument: its name and the role it is used in.
pub ghost struct Use {
    pub name: Seq<char>,
    pub role: ArgType,
}

/// The uses of arguments in a message, in the order of a walk from left to
/// right that enters each token's cases and parameter behind the token itself.
pub open spec fn uses(message: Seq<TokenModel>) -> Seq<Use>
    decreases message, 0int,
{
    if message.len() == 0 {
        Seq::empty()
    } else {
        uses(message.drop_last()) + token_uses(message.last())
    }
}

/// The uses of arguments in one token.
pub open spec fn token_uses(token: TokenModel) -> Seq<Use>
    decreases token, 1int,
{
    match token {
        TokenModel::Content { .. } => Seq::empty(),
        TokenModel::Octothorpe => Seq::empty(),
        TokenModel::PlainArg { arg } => seq![Use { name: arg, role: ArgType::PlainArg }],
        TokenModel::FunctionArg { arg, key, param } => seq![
            Use { name: arg, role: ArgType::FunctionArg },
        ] + (match param {
            Some(tokens) => uses(tokens),
            None => Seq::empty(),
        }),
        TokenModel::Plural { arg, cases, plural_offset } => seq![
            Use { name: arg, role: ArgType::OrdinalArg },
        ] + plural_uses(cases),
        TokenModel::SelectOrdinal { arg, cases, plural_offset } => seq![
            Use { name: arg, role: ArgType::OrdinalArg },
        ] + plural_uses(cases),
        TokenModel::Select { arg, cases, plural_offset } => seq![
            Use { name: arg, role: ArgType::SelectArg },
        ] + select_uses(cases),
    }
}

/// The uses of arguments in the cases of a `plural` or `selectordinal`.
pub open spec fn plural_uses(cases: Seq<PluralCaseModel>) -> Seq<Use>
    decreases cases, 0int,
{
    if cases.len() == 0 {
        Seq::empty()
    } else {
        plural_uses(cases.drop_last()) + uses(cases.last().tokens)
    }
}

/// The uses of arguments in the cases of a `select`.
pub open spec fn select_uses(cases: Seq<SelectCaseModel>) -> Seq<Use>
    decreases cases, 0int,
{
    if cases.len() == 0 {
        Seq::empty()
    } else {
        select_uses(cases.drop_last()) + uses(cases.last().tokens)
    }
}

/// The roles that one argument is used in, in the order in which they were
/// first seen. The first is the role that counts.
pub ghost struct RequirementModel {
    pub name: Seq<char>,
    pub roles: Seq<ArgType>,
}

/// The first position in `reqs` of the argument `name`, or the length of
/// `reqs` if it is not there.
pub open spec fn index_of(reqs: Seq<RequirementModel>, name: Seq<char>) -> int
    decreases reqs.len(),
{
    if reqs.len() == 0 {
        0
    } else if reqs[0].name == name {
        0
    } else {
        1 + index_of(reqs.drop_first(), name)
    }
}

/// The requirements with one more use: a new argument is added behind the
/// others, with that role; a known argument gains the role behind its others,
/// unless it has it already.
pub open spec fn record(reqs: Seq<RequirementModel>, u: Use) -> Seq<RequirementModel> {
    let i = index_of(reqs, u.name);
    if i >= reqs.len() {
        reqs.push(RequirementModel { name: u.name, roles: seq![u.role] })
    } else if reqs[i].roles.contains(u.role) {
        reqs
    } else {
        reqs.update(i, RequirementModel { name: u.name, roles: reqs[i].roles.push(u.role) })
    }
}

/// The requirements with a sequence of uses more, one after the other.
pub open spec fn record_all(reqs: Seq<RequirementModel>, us: Seq<Use>) -> Seq<RequirementModel>
    decreases us.len(),
{
    if us.len() == 0 {
        reqs
    } else {
        record(record_all(reqs, us.drop_last()), us.last())
    }
}

/// The requirements of a message.
pub open spec fn requirements(message: Seq<TokenModel>) -> Seq<RequirementModel> {
    record_all(Seq::empty(), uses(message))
}

/// An argument and the roles it is used in.
#[derive(Debug, PartialEq, Eq)]
pub struct Requirement {
    pub name: String,
    pub roles: Vec<ArgType>,
}

/// The arguments of a message, in the order in which they were first seen,
/// each with its roles.
#[derive(Debug, PartialEq, Eq)]
pub struct ArgumentRequirements {
    pub entries: Vec<Requirement>,
}

impl View for Requirement {
    type V = RequirementModel;

    open spec fn view(&self) -> RequirementModel {
        RequirementModel { name: self.name@, roles: self.roles@ }
    }
}

impl View for ArgumentRequirements {
    type V = Seq<RequirementModel>;

    open spec fn view(&self) -> Seq<RequirementModel> {
        Seq::new(self.entries@.len(), |i: int| self.entries@[i]@)
    }
}

/// Where the first `i` names differ from `name`, the position of `name` is
/// `i` if it stands there or `i` is the length.
pub proof fn lemma_index_of(reqs: Seq<RequirementModel>, name: Seq<char>, i: int)
    requires
        0 <= i <= reqs.len(),
        forall|j: int| 0 <= j < i ==> (#[trigger] reqs[j]).name != name,
        i < reqs.len() ==> reqs[i].name == name,
    ensures
        index_of(reqs, name) == i,
    decreases i,
{
    if i > 0 {
        let rest = reqs.drop_first();
        assert forall|j: int| 0 <= j < i - 1 implies (#[trigger] rest[j]).name != name by {
            assert(rest[j] == reqs[j + 1]);
        }
        lemma_index_of(rest, name, i - 1);
    }
}

impl ArgumentRequirements {
    /// No requirements.
    pub fn new() -> (r: ArgumentRequirements)
        ensures
            r@ == Seq::<RequirementModel>::empty(),
    {
        let r = ArgumentRequirements { entries: Vec::new() };
        assert(r@ =~= Seq::<RequirementModel>::empty());
        r
    }

    /// The position of the argument `name`, or the number of arguments if it
    /// is not among them.
    pub fn position(&self, name: &String) -> (i: usize)
        ensures
            i == index_of(self@, name@),
            i <= self.entries@.len(),
    {
        let mut i: usize = 0;
        while i < self.entries.len() && !(self.entries[i].name == *name)
            invariant
                i <= self.entries@.len(),
                forall|j: int| 0 <= j < i ==> (#[trigger] self@[j]).name != name@,
            decreases self.entries@.len() - i,
        {
            i += 1;
        }
        proof {
            lemma_index_of(self@, name@, i as int);
        }
        i
    }

    /// The role that counts for the argument `name`: the one it was first
    /// used in. `None` if the argument is not listed.
    pub fn role_of(&self, name: &String) -> (r: Option<ArgType>)
        ensures
            match r {
                Some(role) => roles_of(self@, name@).len() > 0 && role == roles_of(
                    self@,
                    name@,
                )[0],
                None => roles_of(self@, name@).len() == 0,
            },
    {
        let i = self.position(name);
        if i < self.entries.len() && self.entries[i].roles.len() > 0 {
            Some(self.entries[i].roles[0])
        } else {
            None
        }
    }

    /// Whether the argument `name` is used in more than one role.
    pub fn is_ambiguous(&self, name: &String) -> (r: bool)
        ensures
            r == (roles_of(self@, name@).len() > 1),
    {
        let i = self.position(name);
        i < self.entries.len() && self.entries[i].roles.len() > 1
    }

    /// Records one use of the argument `name` in the role `role`.
    pub fn record(&mut self, name: &String, role: ArgType)
        ensures
            final(self)@ == record(old(self)@, Use { name: name@, role }),
    {
        let i = self.position(name);
        if i >= self.entries.len() {
            let mut roles: Vec<ArgType> = Vec::new();
            roles.push(role);
            self.entries.push(Requirement { name: name.clone(), roles });
            proof {
                assert(roles@ =~= seq![role]);
                assert(final(self)@ =~= record(old(self)@, Use { name: name@, role }));
            }
        } else if !has_role(&self.entries[i].roles, role) {
            let mut roles = copy_roles(&self.entries[i].roles);
            roles.push(role);
            self.entries.set(i, Requirement { name: name.clone(), roles });
            proof {
                assert(final(self)@ =~= record(old(self)@, Use { name: name@, role }));
            }
        }
    }
}

/// Whether `role` is among `roles`.
pub fn has_role(roles: &Vec<ArgType>, role: ArgType) -> (r: bool)
    ensures
        r == roles@.contains(role),
{
    let mut i: usize = 0;
    while i < roles.len()
        invariant
            i <= roles@.len(),
            forall|j: int| 0 <= j < i ==> roles@[j] != role,
        decreases roles@.len() - i,
    {
        if roles[i] == role {
            return true;
        }
        i += 1;
    }
    false
}

fn copy_roles(roles: &Vec<ArgType>) -> (r: Vec<ArgType>)
    ensures
        r@ == roles@,
{
    let mut r: Vec<ArgType> = Vec::new();
    let mut i: usize = 0;
    while i < roles.len()
        invariant
            i <= roles@.len(),
            r@ == roles@.take(i as int),
        decreases roles@.len() - i,
    {
        r.push(roles[i]);
        i += 1;
        assert(r@ =~= roles@.take(i as int));
    }
    assert(roles@.take(roles@.len() as int) =~= roles@);
    r
}

/// Recording two sequences of uses one after the other records their
/// concatenation.
pub proof fn lemma_record_all_append(reqs: Seq<RequirementModel>, a: Seq<Use>, b: Seq<Use>)
    ensures
        record_all(reqs, a + b) == record_all(record_all(reqs, a), b),
    decreases b.len(),
{
    if b.len() == 0 {
        assert(a + b =~= a);
    } else {
        assert((a + b).drop_last() =~= a + b.drop_last());
        assert((a + b).last() == b.last());
        lemma_record_all_append(reqs, a, b.drop_last());
    }
}

/// Recording one use.
pub proof fn lemma_record_all_one(reqs: Seq<RequirementModel>, u: Use)
    ensures
        record_all(reqs, seq![u]) == record(reqs, u),
{
    assert(seq![u].drop_last() =~= Seq::<Use>::empty());
    assert(record_all(reqs, seq![u].drop_last()) == reqs);
}

/// Adds the uses of arguments in `tokens` to `args`.
pub fn collect_message(tokens: &Vec<Token>, args: &mut ArgumentRequirements)
    ensures
        final(args)@ == record_all(old(args)@, uses(message_view(tokens@))),
    decreases tokens,
{
    let mut i: usize = 0;
    proof {
        assert(message_view(tokens@.take(0)) =~= Seq::<TokenModel>::empty());
    }
    while i < tokens.len()
        invariant
            i <= tokens@.len(),
            args@ == record_all(old(args)@, uses(message_view(tokens@.take(i as int)))),
        decreases tokens@.len() - i,
    {
        let ghost before = args@;
        collect_token(&tokens[i], args);
        proof {
            let done = message_view(tokens@.take(i as int));
            let more = message_view(tokens@.take(i + 1));
            assert(more.drop_last() =~= done);
            assert(more.last() == token_view(tokens@[i as int]));
            lemma_record_all_append(old(args)@, uses(done), token_uses(more.last()));
        }
        i += 1;
    }
    proof {
        assert(tokens@.take(tokens@.len() as int) =~= tokens@);
    }
}

/// Adds the uses of arguments in `token` to `args`.
pub fn collect_token(token: &Token, args: &mut ArgumentRequirements)
    ensures
        final(args)@ == record_all(old(args)@, token_uses(token_view(*token))),
    decreases token,
{
    match token {
        Token::Content { .. } => {},
        Token::Octothorpe {  } => {},
        Token::PlainArg { arg } => {
            args.record(arg, ArgType::PlainArg);
            proof {
                lemma_record_all_one(old(args)@, Use { name: arg@, role: ArgType::PlainArg });
            }
        },
        Token::FunctionArg { arg, key, param } => {
            args.record(arg, ArgType::FunctionArg);
            let ghost first = Use { name: arg@, role: ArgType::FunctionArg };
            proof {
                lemma_record_all_one(old(args)@, first);
            }
            match param {
                Some(tokens) => {
                    collect_message(tokens, args);
                    proof {
                        lemma_record_all_append(
                            old(args)@,
                            seq![first],
                            uses(message_view(tokens@)),
                        );
                    }
                },
                None => {
                    proof {
                        assert(seq![first] + Seq::<Use>::empty() =~= seq![first]);
                    }
                },
            }
        },
        Token::Plural { arg, cases, plural_offset } => {
            args.record(arg, ArgType::OrdinalArg);
            let ghost first = Use { name: arg@, role: ArgType::OrdinalArg };
            proof {
                lemma_record_all_one(old(args)@, first);
            }
            collect_plural_cases(cases, args);
            proof {
                lemma_record_all_append(
                    old(args)@,
                    seq![first],
                    plural_uses(plural_cases_view(cases@)),
                );
            }
        },
        Token::SelectOrdinal { arg, cases, plural_offset } => {
            args.record(arg, ArgType::OrdinalArg);
            let ghost first = Use { name: arg@, role: ArgType::OrdinalArg };
            proof {
                lemma_record_all_one(old(args)@, first);
            }
            collect_plural_cases(cases, args);
            proof {
                lemma_record_all_append(
                    old(args)@,
                    seq![first],
                    plural_uses(plural_cases_view(cases@)),
                );
            }
        },
        Token::Select { arg, cases, plural_offset } => {
            args.record(arg, ArgType::SelectArg);
            let ghost first = Use { name: arg@, role: ArgType::SelectArg };
            proof {
                lemma_record_all_one(old(args)@, first);
            }
            collect_select_cases(cases, args);
            proof {
                lemma_record_all_append(
                    old(args)@,
                    seq![first],
                    select_uses(select_cases_view(cases@)),
                );
            }
        },
    }
}

/// Adds the uses of arguments in the bodies of `cases` to `args`.
pub fn collect_plural_cases(cases: &Vec<PluralCase>, args: &mut ArgumentRequirements)
    ensures
        final(args)@ == record_all(old(args)@, plural_uses(plural_cases_view(cases@))),
    decreases cases,
{
    let mut i: usize = 0;
    proof {
        assert(plural_cases_view(cases@.take(0)) =~= Seq::<PluralCaseModel>::empty());
    }
    while i < cases.len()
        invariant
            i <= cases@.len(),
            args@ == record_all(
                old(args)@,
                plural_uses(plural_cases_view(cases@.take(i as int))),
            ),
        decreases cases@.len() - i,
    {
        collect_message(&cases[i].tokens, args);
        proof {
            let done = plural_cases_view(cases@.take(i as int));
            let more = plural_cases_view(cases@.take(i + 1));
            assert(more.drop_last() =~= done);
            assert(more.last().tokens == message_view(cases@[i as int].tokens@));
            lemma_record_all_append(old(args)@, plural_uses(done), uses(more.last().tokens));
        }
        i += 1;
    }
    proof {
        assert(cases@.take(cases@.len() as int) =~= cases@);
    }
}

/// Adds the uses of arguments in the bodies of `cases` to `args`.
pub fn collect_select_cases(cases: &Vec<SelectCase>, args: &mut ArgumentRequirements)
    ensures
        final(args)@ == record_all(old(args)@, select_uses(select_cases_view(cases@))),
    decreases cases,
{
    let mut i: usize = 0;
    proof {
        assert(select_cases_view(cases@.take(0)) =~= Seq::<SelectCaseModel>::empty());
    }
    while i < cases.len()
        invariant
            i <= cases@.len(),
            args@ == record_all(
                old(args)@,
                select_uses(select_cases_view(cases@.take(i as int))),
            ),
        decreases cases@.len() - i,
    {
        collect_message(&cases[i].tokens, args);
        proof {
            let done = select_cases_view(cases@.take(i as int));
            let more = select_cases_view(cases@.take(i + 1));
            assert(more.drop_last() =~= done);
            assert(more.last().tokens == message_view(cases@[i as int].tokens@));
            lemma_record_all_append(old(args)@, select_uses(done), uses(more.last().tokens));
        }
        i += 1;
    }
    proof {
        assert(cases@.take(cases@.len() as int) =~= cases@);
    }
}

/// A sequence of tokens, as far as its arguments go.
pub trait TokenSlice {
    /// The message that the tokens make up.
    spec fn message(&self) -> Seq<TokenModel>;

    /// The arguments of the message with their roles.
    fn get_args(&self) -> (args: ArgumentRequirements)
        ensures
            args@ == requirements(self.message()),
            well_formed(args@),
    ;

    /// Adds the uses of arguments in the message to `args`.
    fn get_args_into(&self, args: &mut ArgumentRequirements)
        ensures
            final(args)@ == record_all(old(args)@, uses(self.message())),
    ;
}

impl TokenSlice for Vec<Token> {
    open spec fn message(&self) -> Seq<TokenModel> {
        message_view(self@)
    }

    fn get_args(&self) -> (args: ArgumentRequirements) {
        let mut args = ArgumentRequirements::new();
        collect_message(self, &mut args);
        proof {
            lemma_requirements_well_formed(uses(message_view(self@)));
        }
        args
    }

    fn get_args_into(&self, args: &mut ArgumentRequirements) {
        collect_message(self, args);
    }
}

/// Whether the argument `name` is used somewhere in the role `role`.
pub open spec fn used(us: Seq<Use>, name: Seq<char>, role: ArgType) -> bool {
    exists|k: int| 0 <= k < us.len() && #[trigger] us[k] == (Use { name, role })
}

/// Whether `k` is the first use of the argument `name`.
pub open spec fn is_first_use(us: Seq<Use>, name: Seq<char>, k: int) -> bool {
    &&& 0 <= k < us.len()
    &&& us[k].name == name
    &&& forall|j: int| 0 <= j < k ==> (#[trigger] us[j]).name != name
}

/// The roles recorded for the argument `name`: none if it is not listed.
pub open spec fn roles_of(reqs: Seq<RequirementModel>, name: Seq<char>) -> Seq<ArgType> {
    if index_of(reqs, name) < reqs.len() {
        reqs[index_of(reqs, name)].roles
    } else {
        Seq::empty()
    }
}

/// No argument is listed twice, and each has at least one role and no role
/// twice.
pub open spec fn well_formed(reqs: Seq<RequirementModel>) -> bool {
    &&& forall|i: int, j: int|
        0 <= i < j < reqs.len() ==> (#[trigger] reqs[i]).name != (#[trigger] reqs[j]).name
    &&& forall|i: int|
        0 <= i < reqs.len() ==> (#[trigger] reqs[i]).roles.len() > 0
            && reqs[i].roles.no_duplicates()
}

/// The position of the first use of `name`, or the number of uses.
spec fn first_use(us: Seq<Use>, name: Seq<char>) -> int
    decreases us.len(),
{
    if us.len() == 0 {
        0
    } else {
        let before = first_use(us.drop_last(), name);
        if before < us.len() - 1 {
            before
        } else if us.last().name == name {
            us.len() - 1
        } else {
            us.len() as int
        }
    }
}

proof fn lemma_first_use(us: Seq<Use>, name: Seq<char>)
    ensures
        0 <= first_use(us, name) <= us.len(),
        first_use(us, name) < us.len() ==> is_first_use(us, name, first_use(us, name)),
        first_use(us, name) == us.len() ==> forall|j: int|
            0 <= j < us.len() ==> (#[trigger] us[j]).name != name,
    decreases us.len(),
{
    if us.len() > 0 {
        lemma_first_use(us.drop_last(), name);
        let rest = us.drop_last();
        assert(forall|j: int| 0 <= j < rest.len() ==> rest[j] == us[j]);
    }
}

/// What the position of an argument says.
pub proof fn lemma_index_of_found(reqs: Seq<RequirementModel>, name: Seq<char>)
    ensures
        0 <= index_of(reqs, name) <= reqs.len(),
        index_of(reqs, name) < reqs.len() ==> reqs[index_of(reqs, name)].name == name,
        forall|j: int| 0 <= j < index_of(reqs, name) ==> (#[trigger] reqs[j]).name != name,
    decreases reqs.len(),
{
    if reqs.len() > 0 && reqs[0].name != name {
        let rest = reqs.drop_first();
        lemma_index_of_found(rest, name);
        assert forall|j: int| 0 <= j < index_of(reqs, name) implies (#[trigger] reqs[j]).name
            != name by {
            if j > 0 {
                assert(reqs[j] == rest[j - 1]);
            }
        }
    }
}

/// What holds between a sequence of uses and the requirements recorded from
/// it.
spec fn described(reqs: Seq<RequirementModel>, us: Seq<Use>) -> bool {
    &&& well_formed(reqs)
    &&& forall|i: int|
        0 <= i < reqs.len() ==> first_use(us, (#[trigger] reqs[i]).name) < us.len()
            && reqs[i].roles[0] == us[first_use(us, reqs[i].name)].role
    &&& forall|i: int, r: ArgType|
        0 <= i < reqs.len() && (#[trigger] reqs[i]).roles.contains(r) ==> #[trigger] used(
            us,
            reqs[i].name,
            r,
        )
    &&& forall|k: int|
        0 <= k < us.len() ==> roles_of(reqs, (#[trigger] us[k]).name).contains(us[k].role)
}

proof fn lemma_described_step(reqs: Seq<RequirementModel>, us: Seq<Use>, u: Use)
    requires
        described(reqs, us),
    ensures
        described(record(reqs, u), us.push(u)),
{
    let next = record(reqs, u);
    let more = us.push(u);
    let at = index_of(reqs, u.name);
    lemma_index_of_found(reqs, u.name);
    assert(more.drop_last() =~= us);
    assert(more.last() == u);
    // Names stay the same at every old position.
    assert forall|i: int| 0 <= i < reqs.len() implies (#[trigger] next[i]).name
        == reqs[i].name by {}
    // The position of every name is the same as before, where it was listed.
    assert forall|name: Seq<char>| index_of(reqs, name) < reqs.len() implies #[trigger] index_of(
        next,
        name,
    ) == index_of(reqs, name) by {
        lemma_index_of_found(reqs, name);
        lemma_index_of(next, name, index_of(reqs, name));
    }
    if at >= reqs.len() {
        lemma_index_of(next, u.name, reqs.len() as int);
        assert(seq![u.role].no_duplicates());
        assert(seq![u.role][0] == u.role);
    } else {
        if !reqs[at].roles.contains(u.role) {
            let old_roles = reqs[at].roles;
            let new_roles = old_roles.push(u.role);
            assert(new_roles.no_duplicates()) by {
                assert forall|a: int, b: int|
                    0 <= a < new_roles.len() && 0 <= b < new_roles.len() && a
                        != b implies new_roles[a] != new_roles[b] by {
                    if a < old_roles.len() && b < old_roles.len() {
                    } else if a < old_roles.len() {
                        assert(old_roles.contains(old_roles[a]));
                    } else {
                        assert(old_roles.contains(old_roles[b]));
                    }
                }
            }
            assert(new_roles[0] == old_roles[0]);
        }
    }
    assert(well_formed(next)) by {
        assert forall|i: int, j: int| 0 <= i < j < next.len() implies (#[trigger] next[i]).name
            != (#[trigger] next[j]).name by {
            if j < reqs.len() {
                assert(reqs[i].name != reqs[j].name);
            }
        }
        assert forall|i: int| 0 <= i < next.len() implies (#[trigger] next[i]).roles.len() > 0
            && next[i].roles.no_duplicates() by {
            if i < reqs.len() {
                assert(reqs[i].roles.len() > 0);
            }
        }
    }
    assert forall|i: int| 0 <= i < next.len() implies first_use(more, (#[trigger] next[i]).name)
        < more.len() && next[i].roles[0] == more[first_use(more, next[i].name)].role by {
        lemma_first_use(us, next[i].name);
        if i < reqs.len() {
            assert(first_use(us, reqs[i].name) < us.len());
            assert(reqs[i].roles[0] == us[first_use(us, reqs[i].name)].role);
        } else {
            assert(next[i].name == u.name);
            assert(first_use(us, u.name) == us.len()) by {
                if first_use(us, u.name) < us.len() {
                    let k = first_use(us, u.name);
                    assert(roles_of(reqs, us[k].name).contains(us[k].role));
                }
            }
        }
    }
    assert forall|i: int, r: ArgType|
        0 <= i < next.len() && (#[trigger] next[i]).roles.contains(r) implies #[trigger] used(
        more,
        next[i].name,
        r,
    ) by {
        if i < reqs.len() && reqs[i].roles.contains(r) {
            assert(used(us, reqs[i].name, r));
            let k = choose|k: int| 0 <= k < us.len() && #[trigger] us[k] == (Use {
                name: reqs[i].name,
                role: r,
            });
            assert(more[k] == us[k]);
        } else {
            assert(r == u.role && next[i].name == u.name) by {
                if i < reqs.len() {
                    assert(i == at);
                    let old_roles = reqs[at].roles;
                    let w = choose|w: int| 0 <= w < next[i].roles.len() && next[i].roles[w] == r;
                    if w < old_roles.len() {
                        assert(old_roles[w] == r);
                        assert(old_roles.contains(r));
                    }
                } else {
                    let w = choose|w: int| 0 <= w < next[i].roles.len() && next[i].roles[w] == r;
                }
            }
            assert(more[us.len() as int] == u);
        }
    }
    assert forall|k: int| 0 <= k < more.len() implies roles_of(
        next,
        (#[trigger] more[k]).name,
    ).contains(more[k].role) by {
        if k < us.len() {
            assert(more[k] == us[k]);
            assert(roles_of(reqs, us[k].name).contains(us[k].role));
            let i = index_of(reqs, us[k].name);
            lemma_index_of_found(reqs, us[k].name);
            assert(i < reqs.len());
            assert(index_of(next, us[k].name) == i);
            let roles = reqs[i].roles;
            assert(roles.contains(us[k].role));
            let w = choose|w: int| 0 <= w < roles.len() && roles[w] == us[k].role;
            assert(next[i].roles[w] == us[k].role);
        } else {
            if at >= reqs.len() {
                assert(next[reqs.len() as int].roles[0] == u.role);
            } else if reqs[at].roles.contains(u.role) {
            } else {
                assert(next[at].roles[reqs[at].roles.len() as int] == u.role);
            }
        }
    }
}

proof fn lemma_described(us: Seq<Use>)
    ensures
        described(record_all(Seq::empty(), us), us),
    decreases us.len(),
{
    if us.len() > 0 {
        lemma_described(us.drop_last());
        lemma_described_step(record_all(Seq::empty(), us.drop_last()), us.drop_last(), us.last());
        assert(us.drop_last().push(us.last()) =~= us);
    }
}

/// The requirements recorded from any uses list no argument twice, and give
/// each at least one role and no role twice.
pub proof fn lemma_requirements_well_formed(us: Seq<Use>)
    ensures
        well_formed(record_all(Seq::empty(), us)),
{
    lemma_described(us);
}

/// The first role recorded for an argument is the role of its first use,
/// whatever its later uses are.
pub proof fn lemma_first_role_is_first_use(us: Seq<Use>, name: Seq<char>, k: int)
    requires
        is_first_use(us, name, k),
    ensures
        roles_of(record_all(Seq::empty(), us), name).len() > 0,
        roles_of(record_all(Seq::empty(), us), name)[0] == us[k].role,
{
    let reqs = record_all(Seq::empty(), us);
    lemma_described(us);
    lemma_first_use(us, name);
    lemma_index_of_found(reqs, name);
    assert(roles_of(reqs, us[k].name).contains(us[k].role));
    let i = index_of(reqs, name);
    assert(i < reqs.len());
    assert(reqs[i].name == name);
    assert(first_use(us, name) == k) by {
        let f = first_use(us, name);
        if f < k {
            assert(us[f].name == name);
        } else if f > k {
            if f < us.len() {
                assert(is_first_use(us, name, f));
            }
            assert(us[k].name != name);
        }
    }
}

/// The roles recorded for an argument are the roles it is used in.
pub proof fn lemma_roles_are_uses(us: Seq<Use>, name: Seq<char>, role: ArgType)
    ensures
        roles_of(record_all(Seq::empty(), us), name).contains(role) <==> used(us, name, role),
{
    let reqs = record_all(Seq::empty(), us);
    lemma_described(us);
    lemma_index_of_found(reqs, name);
    if roles_of(reqs, name).contains(role) {
        let i = index_of(reqs, name);
        assert(reqs[i].roles.contains(role));
        assert(used(us, reqs[i].name, role));
    }
    if used(us, name, role) {
        let k = choose|k: int| 0 <= k < us.len() && #[trigger] us[k] == (Use { name, role });
        assert(roles_of(reqs, us[k].name).contains(us[k].role));
    }
}

/// An argument has more than one role recorded exactly if two of its uses
/// differ in their roles.
pub proof fn lemma_ambiguous(us: Seq<Use>, name: Seq<char>)
    ensures
        roles_of(record_all(Seq::empty(), us), name).len() > 1 <==> exists|
            a: ArgType,
            b: ArgType,
        |
            a != b && #[trigger] used(us, name, a) && #[trigger] used(us, name, b),
{
    let reqs = record_all(Seq::empty(), us);
    let roles = roles_of(reqs, name);
    lemma_described(us);
    lemma_index_of_found(reqs, name);
    if roles.len() > 1 {
        let i = index_of(reqs, name);
        assert(reqs[i].roles.no_duplicates());
        assert(roles.contains(roles[0]));
        assert(roles.contains(roles[1]));
        lemma_roles_are_uses(us, name, roles[0]);
        lemma_roles_are_uses(us, name, roles[1]);
        assert(roles[0] != roles[1]);
    }
    if exists|a: ArgType, b: ArgType|
        a != b && #[trigger] used(us, name, a) && #[trigger] used(us, name, b) {
        let (a, b) = choose|a: ArgType, b: ArgType|
            a != b && #[trigger] used(us, name, a) && #[trigger] used(us, name, b);
        lemma_roles_are_uses(us, name, a);
        lemma_roles_are_uses(us, name, b);
        let x = choose|x: int| 0 <= x < roles.len() && roles[x] == a;
        let y = choose|y: int| 0 <= y < roles.len() && roles[y] == b;
        assert(x != y);
    }
}

} // verus!
