//! The order in which discovered components are evaluated.
//!
//! Components of the first phase are ordered by what they declare. A component is ready when every
//! name in its `after` and the offerer of every key in its `needs` is settled: placed already, or
//! not to be placed at all. Of the components that are ready, the one that was declared first goes
//! next. A component that depends on another only through a sibling gets no order against that
//! sibling.
use crate::component::ComponentDescriptor;
use crate::text;
use vstd::prelude::*;

verus! {

/// Why the components of a phase cannot be built in order.
pub enum OrderError {
    /// One key is offered twice. Subscribing both would leave one of the two slots without a name.
    DuplicateOffer { key: String, first: String, second: String },
    /// None of these components can go next.
    Cycle { stuck: Vec<String> },
    /// A component belongs to this unit, which is not there.
    MissingUnit { unit: String },
}

/// The text that `{:?}` gives of a list of strings.
pub uninterp spec fn debug_list(names: Seq<Seq<char>>) -> Seq<char>;

/// Calls `format!` with `{:?}` on the list. The result is a function of the strings alone.
#[verifier::external_body]
fn debug_names(names: &Vec<String>) -> (listed: String)
    ensures
        listed@ == debug_list(text::texts(names@)),
{
    format!("{:?}", names)
}

impl OrderError {
    pub open spec fn text(self) -> Seq<char> {
        match self {
            OrderError::DuplicateOffer { key, first, second } => "chave '"@ + key@
                + "' ofertada por dois componentes da fase (A): '"@ + first@ + "' e '"@ + second@
                + "' — StateRegistry::subscribe() sobrescreveria o índice de um dos dois silenciosamente"@,
            OrderError::Cycle { stuck } =>
                "ciclo real de dependência na fase (A) — nenhum destes componentes consegue progresso: "@
                + debug_list(text::texts(stuck@))
                + ". Verifique `needs`/`offers`/`after` de cada um."@,
            OrderError::MissingUnit { unit } => "'"@ + unit@
                + "' deveria já ter sido construída (offer_instance) antes de suas tarefas — `after` deveria garantir isso"@,
        }
    }

    pub fn message(&self) -> (message: String)
        ensures
            message@ == self.text(),
    {
        let mut message: String = String::new();
        match self {
            OrderError::DuplicateOffer { key, first, second } => {
                message.append("chave '");
                message.append(key.as_str());
                message.append("' ofertada por dois componentes da fase (A): '");
                message.append(first.as_str());
                message.append("' e '");
                message.append(second.as_str());
                message.append(
                    "' — StateRegistry::subscribe() sobrescreveria o índice de um dos dois silenciosamente",
                );
                assert(message@ =~= self.text());
            },
            OrderError::Cycle { stuck } => {
                message.append(
                    "ciclo real de dependência na fase (A) — nenhum destes componentes consegue progresso: ",
                );
                message.append(debug_names(stuck).as_str());
                message.append(". Verifique `needs`/`offers`/`after` de cada um.");
                assert(message@ =~= self.text());
            },
            OrderError::MissingUnit { unit } => {
                message.append("'");
                message.append(unit.as_str());
                message.append(
                    "' deveria já ter sido construída (offer_instance) antes de suas tarefas — `after` deveria garantir isso",
                );
                assert(message@ =~= self.text());
            },
        }
        message
    }
}

/// Every offered key in the order of declaration.
pub open spec fn offered_keys<F>(all: Seq<ComponentDescriptor<F>>) -> Seq<Seq<char>>
    decreases all.len(),
{
    if all.len() == 0 {
        Seq::empty()
    } else {
        offered_keys(all.drop_last()) + text::texts(all.last().offers@)
    }
}

/// The name of the component behind each entry of [`offered_keys`].
pub open spec fn offered_by<F>(all: Seq<ComponentDescriptor<F>>) -> Seq<Seq<char>>
    decreases all.len(),
{
    if all.len() == 0 {
        Seq::empty()
    } else {
        offered_by(all.drop_last()) + Seq::new(all.last().offers@.len(), |i: int| all.last().name@)
    }
}

/// The first place that holds a name which an earlier place holds too.
pub open spec fn first_repeat(names: Seq<Seq<char>>) -> Option<int>
    decreases names.len(),
{
    if names.len() == 0 {
        None
    } else {
        match first_repeat(names.drop_last()) {
            Some(i) => Some(i),
            None => if names.drop_last().contains(names.last()) {
                Some(names.len() - 1)
            } else {
                None
            },
        }
    }
}

pub open spec fn carries_name<F>(list: Seq<ComponentDescriptor<F>>, name: Seq<char>) -> bool {
    exists|i: int| 0 <= i < list.len() && (#[trigger] list[i]).name@ == name
}

/// Whether nothing that still waits can give the name to a later place than one already taken.
pub open spec fn is_settled<F>(
    placed: Seq<ComponentDescriptor<F>>,
    waiting: Seq<ComponentDescriptor<F>>,
    name: Seq<char>,
) -> bool {
    carries_name(placed, name) || !carries_name(waiting, name)
}

/// The names of the components on which a component depends: those in `after`, and the offerers of
/// the keys in `needs` as far as the phase has one.
pub open spec fn depends_on<F>(
    component: ComponentDescriptor<F>,
    keys: Seq<Seq<char>>,
    owners: Seq<Seq<char>>,
    name: Seq<char>,
) -> bool {
    ||| text::texts(component.after@).contains(name)
    ||| exists|i: int|
        0 <= i < component.needs@.len() && (text::last_position(
            keys,
            (#[trigger] component.needs@[i])@,
        ) matches Some(p) && owners[p as int] == name)
}

pub open spec fn is_ready<F>(
    placed: Seq<ComponentDescriptor<F>>,
    waiting: Seq<ComponentDescriptor<F>>,
    keys: Seq<Seq<char>>,
    owners: Seq<Seq<char>>,
    component: ComponentDescriptor<F>,
) -> bool {
    forall|name: Seq<char>|
        #[trigger] depends_on(component, keys, owners, name) ==> is_settled(placed, waiting, name)
}

/// The first component that is ready, at `from` or later.
pub open spec fn first_ready<F>(
    placed: Seq<ComponentDescriptor<F>>,
    waiting: Seq<ComponentDescriptor<F>>,
    keys: Seq<Seq<char>>,
    owners: Seq<Seq<char>>,
    from: int,
) -> Option<int>
    decreases waiting.len() - from,
{
    if from < 0 || from >= waiting.len() {
        None
    } else if is_ready(placed, waiting, keys, owners, waiting[from]) {
        Some(from)
    } else {
        first_ready(placed, waiting, keys, owners, from + 1)
    }
}

/// The components in order, and those that are left when none is ready any more.
pub open spec fn arranged<F>(
    placed: Seq<ComponentDescriptor<F>>,
    waiting: Seq<ComponentDescriptor<F>>,
    keys: Seq<Seq<char>>,
    owners: Seq<Seq<char>>,
) -> (Seq<ComponentDescriptor<F>>, Seq<ComponentDescriptor<F>>)
    decreases waiting.len(),
{
    match first_ready(placed, waiting, keys, owners, 0) {
        Some(i) => if 0 <= i < waiting.len() {
            arranged(placed.push(waiting[i]), waiting.remove(i), keys, owners)
        } else {
            (placed, waiting)
        },
        None => (placed, waiting),
    }
}

/// The components of a phase in order, and those that are left.
pub open spec fn arrangement<F>(all: Seq<ComponentDescriptor<F>>) -> (
    Seq<ComponentDescriptor<F>>,
    Seq<ComponentDescriptor<F>>,
) {
    arranged(Seq::empty(), all, offered_keys(all), offered_by(all))
}

/// Whether each component stands behind everything on which it depends.
pub open spec fn respects_dependencies<F>(
    list: Seq<ComponentDescriptor<F>>,
    keys: Seq<Seq<char>>,
    owners: Seq<Seq<char>>,
) -> bool {
    forall|j: int, name: Seq<char>|
        0 <= j < list.len() && #[trigger] depends_on(list[j], keys, owners, name) && carries_name(
            list,
            name,
        ) ==> carries_name(list.take(j), name)
}

/// Whether a component of the list has the name.
pub(crate) fn has_name<F>(list: &Vec<ComponentDescriptor<F>>, name: &String) -> (yes: bool)
    ensures
        yes == carries_name(list@, name@),
{
    let mut i: usize = 0;
    while i < list.len()
        invariant
            i <= list@.len(),
            forall|k: int| 0 <= k < i ==> (#[trigger] list@[k]).name@ != name@,
        decreases list@.len() - i,
    {
        if list[i].name == *name {
            assert(list@[i as int].name@ == name@);
            return true;
        }
        i = i + 1;
    }
    false
}

fn settled<F>(
    placed: &Vec<ComponentDescriptor<F>>,
    waiting: &Vec<ComponentDescriptor<F>>,
    name: &String,
) -> (yes: bool)
    ensures
        yes == is_settled(placed@, waiting@, name@),
{
    has_name(placed, name) || !has_name(waiting, name)
}

fn ready<F>(
    placed: &Vec<ComponentDescriptor<F>>,
    waiting: &Vec<ComponentDescriptor<F>>,
    keys: &Vec<String>,
    owners: &Vec<String>,
    at: usize,
) -> (yes: bool)
    requires
        at < waiting@.len(),
        keys@.len() == owners@.len(),
    ensures
        yes == is_ready(
            placed@,
            waiting@,
            text::texts(keys@),
            text::texts(owners@),
            waiting@[at as int],
        ),
{
    let component = &waiting[at];
    let ghost key_texts = text::texts(keys@);
    let ghost owner_texts = text::texts(owners@);
    let mut i: usize = 0;
    while i < component.after.len()
        invariant
            i <= component.after@.len(),
            *component == waiting@[at as int],
            key_texts == text::texts(keys@),
            owner_texts == text::texts(owners@),
            forall|k: int|
                0 <= k < i ==> is_settled(placed@, waiting@, (#[trigger] component.after@[k])@),
        decreases component.after@.len() - i,
    {
        if !settled(placed, waiting, &component.after[i]) {
            proof {
                let name = component.after@[i as int]@;
                assert(text::texts(component.after@)[i as int] == name);
                assert(depends_on(*component, key_texts, owner_texts, name));
            }
            return false;
        }
        i = i + 1;
    }
    let mut j: usize = 0;
    while j < component.needs.len()
        invariant
            j <= component.needs@.len(),
            *component == waiting@[at as int],
            key_texts == text::texts(keys@),
            owner_texts == text::texts(owners@),
            keys@.len() == owners@.len(),
            forall|k: int|
                0 <= k < component.after@.len() ==> is_settled(
                    placed@,
                    waiting@,
                    (#[trigger] component.after@[k])@,
                ),
            forall|k: int|
                0 <= k < j ==> (text::last_position(key_texts, (#[trigger] component.needs@[k])@)
                    matches Some(p) ==> is_settled(placed@, waiting@, owner_texts[p as int])),
        decreases component.needs@.len() - j,
    {
        match text::find_last(keys, component.needs[j].as_str()) {
            Some(p) => {
                proof {
                    assert(keys.len() == keys@.len());
                    text::last_position_is_last(key_texts, component.needs@[j as int]@);
                }
                if !settled(placed, waiting, &owners[p]) {
                    assert(owner_texts[p as int] == owners@[p as int]@);
                    assert(depends_on(*component, key_texts, owner_texts, owners@[p as int]@));
                    return false;
                }
            },
            None => {},
        }
        j = j + 1;
    }
    proof {
        assert forall|name: Seq<char>| #[trigger]
            depends_on(*component, key_texts, owner_texts, name) implies is_settled(
            placed@,
            waiting@,
            name,
        ) by {
            if text::texts(component.after@).contains(name) {
                let k = choose|k: int|
                    0 <= k < component.after@.len() && text::texts(component.after@)[k] == name;
                assert(component.after@[k]@ == name);
            }
        }
    }
    true
}

/// The offered keys of a phase with their owners, or the first key that is offered twice.
fn list_offers<F>(all: &Vec<ComponentDescriptor<F>>) -> (table: Result<
    (Vec<String>, Vec<String>),
    OrderError,
>)
    ensures
        match table {
            Ok((keys, owners)) => {
                &&& first_repeat(offered_keys(all@)) is None
                &&& text::texts(keys@) == offered_keys(all@)
                &&& text::texts(owners@) == offered_by(all@)
                &&& keys@.len() == owners@.len()
            },
            Err(error) => duplicate_reported(all@, error),
        },
{
    let mut keys: Vec<String> = Vec::new();
    let mut owners: Vec<String> = Vec::new();
    let mut i: usize = 0;
    assert(all@.take(0) =~= Seq::empty());
    assert(text::texts(keys@) =~= offered_keys(all@.take(0)));
    assert(text::texts(owners@) =~= offered_by(all@.take(0)));
    while i < all.len()
        invariant
            i <= all@.len(),
            keys@.len() == owners@.len(),
            text::texts(keys@) == offered_keys(all@.take(i as int)),
            text::texts(owners@) == offered_by(all@.take(i as int)),
            first_repeat(text::texts(keys@)) is None,
        decreases all@.len() - i,
    {
        let offers = &all[i].offers;
        let ghost names = text::texts(offers@);
        let ghost owner = all@[i as int].name@;
        let ghost before_keys = text::texts(keys@);
        let ghost before_owners = text::texts(owners@);
        let mut j: usize = 0;
        assert(text::texts(keys@) =~= before_keys + names.take(0));
        assert(text::texts(owners@) =~= before_owners + Seq::new(0, |k: int| owner));
        while j < offers.len()
            invariant
                i < all@.len(),
                j <= offers@.len(),
                offers == all@[i as int].offers,
                names == text::texts(offers@),
                owner == all@[i as int].name@,
                keys@.len() == owners@.len(),
                before_keys == offered_keys(all@.take(i as int)),
                before_owners == offered_by(all@.take(i as int)),
                text::texts(keys@) == before_keys + names.take(j as int),
                text::texts(owners@) == before_owners + Seq::new(j as nat, |k: int| owner),
                first_repeat(text::texts(keys@)) is None,
            decreases offers@.len() - j,
        {
            let ghost so_far = text::texts(keys@);
            let ghost so_far_owners = text::texts(owners@);
            let ghost key = offers@[j as int]@;
            proof {
                assert(keys.len() == keys@.len());
                text::last_position_is_last(so_far, key);
            }
            match text::find_last(&keys, offers[j].as_str()) {
                Some(p) => {
                    proof {
                        let extended = so_far.push(key);
                        assert(extended.drop_last() =~= so_far);
                        assert(so_far[p as int] == key);
                        assert(first_repeat(extended) == Some(so_far.len() as int));
                        offers_continue(all@, i as int, j as int, so_far, so_far_owners);
                        repeat_stays(extended, offered_keys(all@));
                        assert(offered_keys(all@).take(so_far.len() as int) =~= so_far);
                        assert(offered_keys(all@)[so_far.len() as int] == key);
                        let n = so_far.len() as int;
                        assert(offered_by(all@).take(n + 1)[p as int] == so_far_owners[p as int]);
                        assert(offered_by(all@).take(n + 1)[n] == owner);
                    }
                    return Err(
                        OrderError::DuplicateOffer {
                            key: offers[j].clone(),
                            first: owners[p].clone(),
                            second: all[i].name.clone(),
                        },
                    );
                },
                None => {},
            }
            keys.push(offers[j].clone());
            owners.push(all[i].name.clone());
            proof {
                assert(text::texts(keys@) =~= so_far.push(key));
                assert(so_far.push(key).drop_last() =~= so_far);
                assert(names.take(j + 1) =~= names.take(j as int).push(key));
                assert(text::texts(keys@) =~= before_keys + names.take(j + 1));
                assert(text::texts(owners@) =~= so_far_owners.push(owner));
                assert(text::texts(owners@) =~= before_owners + Seq::new(
                    (j + 1) as nat,
                    |k: int| owner,
                ));
            }
            j = j + 1;
        }
        proof {
            let longer = all@.take(i + 1);
            assert(longer.drop_last() =~= all@.take(i as int));
            assert(names.take(j as int) =~= names);
            assert(text::texts(keys@) =~= offered_keys(longer));
            assert(text::texts(owners@) =~= offered_by(longer));
        }
        i = i + 1;
    }
    assert(all@.take(i as int) =~= all@);
    Ok((keys, owners))
}

/// Whether the error names the first key that is offered twice and its two offerers.
pub open spec fn duplicate_reported<F>(
    all: Seq<ComponentDescriptor<F>>,
    error: OrderError,
) -> bool {
    let keys = offered_keys(all);
    let owners = offered_by(all);
    first_repeat(keys) matches Some(i) && (error matches OrderError::DuplicateOffer {
        key,
        first,
        second,
    } && {
        &&& key@ == keys[i]
        &&& text::last_position(keys.take(i), keys[i]) matches Some(p) && first@ == owners[p as int]
        &&& second@ == owners[i]
    })
}

/// A list that begins with a repeat has the same first repeat.
proof fn repeat_stays(start: Seq<Seq<char>>, whole: Seq<Seq<char>>)
    requires
        first_repeat(start) is Some,
        start.len() <= whole.len(),
        whole.take(start.len() as int) == start,
    ensures
        first_repeat(whole) == first_repeat(start),
    decreases whole.len(),
{
    if whole.len() == start.len() {
        assert(whole.take(start.len() as int) =~= whole);
    } else {
        assert(whole.drop_last().take(start.len() as int) =~= start);
        repeat_stays(start, whole.drop_last());
    }
}

/// The offers of a component continue those of the components before it.
proof fn offers_continue<F>(
    all: Seq<ComponentDescriptor<F>>,
    i: int,
    j: int,
    keys: Seq<Seq<char>>,
    owners: Seq<Seq<char>>,
)
    requires
        0 <= i < all.len(),
        0 <= j < all[i].offers@.len(),
        keys == offered_keys(all.take(i)) + text::texts(all[i].offers@).take(j),
        owners == offered_by(all.take(i)) + Seq::new(j as nat, |k: int| all[i].name@),
    ensures
        keys.len() == owners.len(),
        keys.len() < offered_keys(all).len(),
        offered_by(all).len() == offered_keys(all).len(),
        offered_keys(all).take(keys.len() as int + 1) == keys.push(all[i].offers@[j]@),
        offered_by(all).take(keys.len() as int + 1) == owners.push(all[i].name@),
    decreases all.len(),
{
    same_lengths(all);
    same_lengths(all.take(i));
    if i == all.len() - 1 {
        assert(all.take(i) =~= all.drop_last());
        assert(offered_keys(all).take(keys.len() as int + 1) =~= keys.push(all[i].offers@[j]@));
        assert(offered_by(all).take(keys.len() as int + 1) =~= owners.push(all[i].name@));
    } else {
        let shorter = all.drop_last();
        assert(shorter.take(i) =~= all.take(i));
        offers_continue(shorter, i, j, keys, owners);
        assert(offered_keys(all).take(keys.len() as int + 1) =~= offered_keys(shorter).take(
            keys.len() as int + 1,
        ));
        assert(offered_by(all).take(keys.len() as int + 1) =~= offered_by(shorter).take(keys.len() as int + 1));
    }
}

proof fn same_lengths<F>(all: Seq<ComponentDescriptor<F>>)
    ensures
        offered_keys(all).len() == offered_by(all).len(),
    decreases all.len(),
{
    if all.len() > 0 {
        same_lengths(all.drop_last());
    }
}

/// The names of the components, in order.
pub open spec fn names_of<F>(list: Seq<ComponentDescriptor<F>>) -> Seq<Seq<char>> {
    Seq::new(list.len(), |i: int| list[i].name@)
}

/// Whether the error says why the components have no order: the first key that is offered twice,
/// or, where no key is, the components that are left when none is ready.
pub open spec fn refused<F>(all: Seq<ComponentDescriptor<F>>, error: OrderError) -> bool {
    match error {
        OrderError::DuplicateOffer { .. } => duplicate_reported(all, error),
        OrderError::Cycle { stuck } => {
            &&& first_repeat(offered_keys(all)) is None
            &&& arrangement(all).1.len() > 0
            &&& text::texts(stuck@) == names_of(arrangement(all).1)
        },
        OrderError::MissingUnit { .. } => false,
    }
}

/// Puts the components of the first phase into the order of their evaluation.
pub fn sort_phase_a<F>(all: Vec<ComponentDescriptor<F>>) -> (sorted: Result<
    Vec<ComponentDescriptor<F>>,
    OrderError,
>)
    ensures
        match sorted {
            Ok(list) => {
                &&& first_repeat(offered_keys(all@)) is None
                &&& arrangement(all@).1.len() == 0
                &&& list@ == arrangement(all@).0
            },
            Err(error) => refused(all@, error),
        },
{
    let (keys, owners) = match list_offers(&all) {
        Ok(table) => table,
        Err(error) => {
            return Err(error);
        },
    };
    let ghost key_texts = text::texts(keys@);
    let ghost owner_texts = text::texts(owners@);
    let ghost whole = all@;
    let mut waiting: Vec<ComponentDescriptor<F>> = all;
    let mut placed: Vec<ComponentDescriptor<F>> = Vec::new();
    while waiting.len() > 0
        invariant
            whole == all@,
            keys@.len() == owners@.len(),
            key_texts == text::texts(keys@),
            owner_texts == text::texts(owners@),
            key_texts == offered_keys(whole),
            owner_texts == offered_by(whole),
            first_repeat(offered_keys(whole)) is None,
            arranged(placed@, waiting@, key_texts, owner_texts) == arrangement(whole),
        decreases waiting@.len(),
    {
        let mut at: usize = 0;
        while at < waiting.len() && !ready(&placed, &waiting, &keys, &owners, at)
            invariant
                at <= waiting@.len(),
                keys@.len() == owners@.len(),
                key_texts == text::texts(keys@),
                owner_texts == text::texts(owners@),
                first_ready(placed@, waiting@, key_texts, owner_texts, 0) == first_ready(
                    placed@,
                    waiting@,
                    key_texts,
                    owner_texts,
                    at as int,
                ),
            decreases waiting@.len() - at,
        {
            at = at + 1;
        }
        if at == waiting.len() {
            let mut stuck: Vec<String> = Vec::new();
            let mut i: usize = 0;
            while i < waiting.len()
                invariant
                    i <= waiting@.len(),
                    stuck@.len() == i,
                    forall|k: int| 0 <= k < i ==> (#[trigger] stuck@[k])@ == waiting@[k].name@,
                decreases waiting@.len() - i,
            {
                stuck.push(waiting[i].name.clone());
                i = i + 1;
            }
            assert(text::texts(stuck@) =~= names_of(waiting@));
            assert(first_ready(placed@, waiting@, key_texts, owner_texts, 0) is None);
            assert(arrangement(whole) == (placed@, waiting@));
            return Err(OrderError::Cycle { stuck });
        }
        let next = waiting.remove(at);
        placed.push(next);
    }
    Ok(placed)
}

proof fn first_ready_is_first<F>(
    placed: Seq<ComponentDescriptor<F>>,
    waiting: Seq<ComponentDescriptor<F>>,
    keys: Seq<Seq<char>>,
    owners: Seq<Seq<char>>,
    from: int,
)
    requires
        0 <= from,
    ensures
        match first_ready(placed, waiting, keys, owners, from) {
            Some(i) => from <= i < waiting.len() && is_ready(
                placed,
                waiting,
                keys,
                owners,
                waiting[i],
            ),
            None => forall|j: int|
                from <= j < waiting.len() ==> !is_ready(
                    placed,
                    waiting,
                    keys,
                    owners,
                    #[trigger] waiting[j],
                ),
        },
    decreases waiting.len() - from,
{
    if from < waiting.len() && !is_ready(placed, waiting, keys, owners, waiting[from]) {
        first_ready_is_first(placed, waiting, keys, owners, from + 1);
    }
}

/// Whether each placed component stands behind those of its dependencies that are to be placed.
spec fn placed_in_order<F>(
    placed: Seq<ComponentDescriptor<F>>,
    waiting: Seq<ComponentDescriptor<F>>,
    keys: Seq<Seq<char>>,
    owners: Seq<Seq<char>>,
) -> bool {
    forall|j: int, name: Seq<char>|
        0 <= j < placed.len() && #[trigger] depends_on(placed[j], keys, owners, name) && (
        carries_name(placed, name) || carries_name(waiting, name)) ==> carries_name(
            placed.take(j),
            name,
        )
}

proof fn arranging_keeps_components<F>(
    placed: Seq<ComponentDescriptor<F>>,
    waiting: Seq<ComponentDescriptor<F>>,
    keys: Seq<Seq<char>>,
    owners: Seq<Seq<char>>,
)
    requires
        placed_in_order(placed, waiting, keys, owners),
    ensures
        ({
            let (sorted, left) = arranged(placed, waiting, keys, owners);
            &&& placed_in_order(sorted, left, keys, owners)
            &&& first_ready(sorted, left, keys, owners, 0) is None
            &&& (sorted + left).to_multiset() == (placed + waiting).to_multiset()
        }),
    decreases waiting.len(),
{
    first_ready_is_first(placed, waiting, keys, owners, 0);
    match first_ready(placed, waiting, keys, owners, 0) {
        Some(i) => {
            let x = waiting[i];
            let more = placed.push(x);
            let fewer = waiting.remove(i);
            assert forall|name: Seq<char>|
                carries_name(more, name) || carries_name(fewer, name) implies carries_name(
                placed,
                name,
            ) || carries_name(waiting, name) by {
                if carries_name(more, name) {
                    let k = choose|k: int| 0 <= k < more.len() && (#[trigger] more[k]).name@ == name;
                    if k < placed.len() {
                        assert(placed[k].name@ == name);
                    } else {
                        assert(waiting[i].name@ == name);
                    }
                } else {
                    let k = choose|k: int|
                        0 <= k < fewer.len() && (#[trigger] fewer[k]).name@ == name;
                    if k < i {
                        assert(waiting[k].name@ == name);
                    } else {
                        assert(waiting[k + 1].name@ == name);
                    }
                }
            }
            assert(placed_in_order(more, fewer, keys, owners)) by {
                assert forall|j: int, name: Seq<char>|
                    0 <= j < more.len() && #[trigger] depends_on(more[j], keys, owners, name) && (
                    carries_name(more, name) || carries_name(fewer, name)) implies carries_name(
                    more.take(j),
                    name,
                ) by {
                    assert(carries_name(placed, name) || carries_name(waiting, name));
                    if j < placed.len() {
                        assert(depends_on(placed[j], keys, owners, name));
                        assert(more.take(j) =~= placed.take(j));
                    } else {
                        assert(more.take(j) =~= placed);
                        assert(is_settled(placed, waiting, name));
                    }
                }
            }
            arranging_keeps_components(more, fewer, keys, owners);
            vstd::seq_lib::to_multiset_build(placed, x);
            vstd::seq_lib::to_multiset_remove(waiting, i);
            vstd::seq_lib::to_multiset_contains(waiting, x);
            vstd::seq_lib::lemma_multiset_commutative(placed, waiting);
            vstd::seq_lib::lemma_multiset_commutative(more, fewer);
            assert((more + fewer).to_multiset() =~= (placed + waiting).to_multiset());
        },
        None => {},
    }
}

/// Ordering neither loses nor invents a component: the ordered ones and those that are left are
/// the components that were given.
pub proof fn ordering_keeps_every_component<F>(all: Seq<ComponentDescriptor<F>>)
    ensures
        (arrangement(all).0 + arrangement(all).1).to_multiset() == all.to_multiset(),
{
    arranging_keeps_components(Seq::empty(), all, offered_keys(all), offered_by(all));
    assert(Seq::<ComponentDescriptor<F>>::empty() + all =~= all);
}

/// In an order that was found, every component stands behind each component of the phase that it
/// names in `after` or whose offer it needs.
pub proof fn dependencies_come_first<F>(all: Seq<ComponentDescriptor<F>>)
    requires
        arrangement(all).1.len() == 0,
    ensures
        respects_dependencies(arrangement(all).0, offered_keys(all), offered_by(all)),
        arrangement(all).0.to_multiset() == all.to_multiset(),
{
    arranging_keeps_components(Seq::empty(), all, offered_keys(all), offered_by(all));
    ordering_keeps_every_component(all);
    assert(arrangement(all).0 + arrangement(all).1 =~= arrangement(all).0);
}

/// The first place of `list` that holds a member of `group`.
proof fn first_member<F>(
    list: Seq<ComponentDescriptor<F>>,
    group: Seq<ComponentDescriptor<F>>,
    bound: int,
) -> (at: int)
    requires
        0 <= bound < list.len(),
        group.contains(list[bound]),
    ensures
        0 <= at <= bound,
        group.contains(list[at]),
        forall|k: int| 0 <= k < at ==> !group.contains(#[trigger] list[k]),
    decreases bound,
{
    if exists|k: int| 0 <= k < bound && group.contains(#[trigger] list[k]) {
        let k = choose|k: int| 0 <= k < bound && group.contains(#[trigger] list[k]);
        first_member(list, group, k)
    } else {
        bound
    }
}

/// Lists with the same components hold the same components.
proof fn same_members<A>(a: Seq<A>, b: Seq<A>, x: A)
    requires
        a.to_multiset() == b.to_multiset(),
        a.contains(x),
    ensures
        b.contains(x),
{
    vstd::seq_lib::to_multiset_contains(a, x);
    vstd::seq_lib::to_multiset_contains(b, x);
}

/// An order is found wherever there is one: the components get stuck only on a real cycle.
pub proof fn only_a_cycle_gets_stuck<F>(
    all: Seq<ComponentDescriptor<F>>,
    witness: Seq<ComponentDescriptor<F>>,
)
    requires
        witness.to_multiset() == all.to_multiset(),
        respects_dependencies(witness, offered_keys(all), offered_by(all)),
    ensures
        arrangement(all).1.len() == 0,
{
    let keys = offered_keys(all);
    let owners = offered_by(all);
    let (placed, left) = arrangement(all);
    arranging_keeps_components(Seq::empty(), all, keys, owners);
    assert(Seq::<ComponentDescriptor<F>>::empty() + all =~= all);
    let both = placed + left;
    assert(both.to_multiset() == witness.to_multiset());
    if left.len() > 0 {
        assert(both[placed.len() as int] == left[0]);
        assert(both.contains(left[0]));
        same_members(both, witness, left[0]);
        let bound = choose|k: int| 0 <= k < witness.len() && witness[k] == left[0];
        let at = first_member(witness, left, bound);
        let x = witness[at];
        let m = choose|m: int| 0 <= m < left.len() && left[m] == x;
        assert forall|name: Seq<char>| #[trigger] depends_on(x, keys, owners, name) implies is_settled(
            placed,
            left,
            name,
        ) by {
            if carries_name(left, name) {
                let c = choose|c: int| 0 <= c < left.len() && (#[trigger] left[c]).name@ == name;
                assert(both[placed.len() + c] == left[c]);
                assert(both.contains(left[c]));
                same_members(both, witness, left[c]);
                let w = choose|w: int| 0 <= w < witness.len() && witness[w] == left[c];
                assert(witness[w].name@ == name);
                assert(carries_name(witness.take(at), name));
                let e = choose|e: int|
                    0 <= e < at && (#[trigger] witness.take(at)[e]).name@ == name;
                assert(witness.take(at)[e] == witness[e]);
                assert(witness.contains(witness[e]));
                same_members(witness, both, witness[e]);
                let b = choose|b: int| 0 <= b < both.len() && both[b] == witness[e];
                if b >= placed.len() {
                    assert(left[b - placed.len()] == witness[e]);
                    assert(left.contains(witness[e]));
                }
                assert(placed[b].name@ == name);
            }
        }
        first_ready_is_first(placed, left, keys, owners, 0);
        assert(!is_ready(placed, left, keys, owners, left[m]));
    }
}

/// Along a chain of dependencies order is transitive, though each component names only its
/// neighbour.
pub proof fn chains_are_ordered<F>(all: Seq<ComponentDescriptor<F>>, a: int, b: int, c: int)
    requires
        arrangement(all).1.len() == 0,
        ({
            let sorted = arrangement(all).0;
            &&& 0 <= a < sorted.len()
            &&& 0 <= b < sorted.len()
            &&& 0 <= c < sorted.len()
            &&& forall|i: int, j: int|
                0 <= i < j < sorted.len() ==> (#[trigger] sorted[i]).name@ != (
                #[trigger] sorted[j]).name@
            &&& depends_on(sorted[b], offered_keys(all), offered_by(all), sorted[a].name@)
            &&& depends_on(sorted[c], offered_keys(all), offered_by(all), sorted[b].name@)
        }),
    ensures
        a < b < c,
{
    let sorted = arrangement(all).0;
    dependencies_come_first(all);
    assert(carries_name(sorted, sorted[a].name@));
    assert(carries_name(sorted, sorted[b].name@));
    let i = choose|i: int|
        0 <= i < b && (#[trigger] sorted.take(b)[i]).name@ == sorted[a].name@;
    assert(sorted.take(b)[i] == sorted[i]);
    let j = choose|j: int|
        0 <= j < c && (#[trigger] sorted.take(c)[j]).name@ == sorted[b].name@;
    assert(sorted.take(c)[j] == sorted[j]);
}

/// What is placed stays in front.
proof fn arranging_appends<F>(
    placed: Seq<ComponentDescriptor<F>>,
    waiting: Seq<ComponentDescriptor<F>>,
    keys: Seq<Seq<char>>,
    owners: Seq<Seq<char>>,
)
    ensures
        placed.is_prefix_of(arranged(placed, waiting, keys, owners).0),
    decreases waiting.len(),
{
    match first_ready(placed, waiting, keys, owners, 0) {
        Some(i) => if 0 <= i < waiting.len() {
            let more = placed.push(waiting[i]);
            arranging_appends(more, waiting.remove(i), keys, owners);
            let sorted = arranged(placed, waiting, keys, owners).0;
            assert(sorted.subrange(0, more.len() as int) =~= more);
            assert forall|k: int| 0 <= k < placed.len() implies sorted[k] == placed[k] by {
                assert(sorted.subrange(0, more.len() as int)[k] == more[k]);
            }
            assert(sorted.subrange(0, placed.len() as int) =~= placed);
        } else {
            assert(placed.subrange(0, placed.len() as int) =~= placed);
        },
        None => {
            assert(placed.subrange(0, placed.len() as int) =~= placed);
        },
    }
}

/// A component that is ready is not behind the one that goes next.
proof fn the_first_goes_next<F>(
    placed: Seq<ComponentDescriptor<F>>,
    waiting: Seq<ComponentDescriptor<F>>,
    keys: Seq<Seq<char>>,
    owners: Seq<Seq<char>>,
    from: int,
    at: int,
)
    requires
        0 <= from <= at < waiting.len(),
        is_ready(placed, waiting, keys, owners, waiting[at]),
    ensures
        first_ready(placed, waiting, keys, owners, from) matches Some(i) && from <= i <= at,
    decreases waiting.len() - from,
{
    if !is_ready(placed, waiting, keys, owners, waiting[from]) {
        the_first_goes_next(placed, waiting, keys, owners, from + 1, at);
    }
}

/// Whether `x` stands before `y` somewhere in the list.
pub open spec fn comes_before<F>(
    list: Seq<ComponentDescriptor<F>>,
    x: ComponentDescriptor<F>,
    y: ComponentDescriptor<F>,
) -> bool {
    exists|a: int, b: int|
        0 <= a < b < list.len() && #[trigger] list[a] == x && #[trigger] list[b] == y
}

/// Whether the components of `part` stand in the order in which they stand in `list`.
spec fn keeps_order<F>(
    list: Seq<ComponentDescriptor<F>>,
    part: Seq<ComponentDescriptor<F>>,
) -> bool {
    forall|i: int, j: int|
        0 <= i < j < part.len() ==> comes_before(list, #[trigger] part[i], #[trigger] part[j])
}

proof fn least_from_here<F>(
    all: Seq<ComponentDescriptor<F>>,
    placed: Seq<ComponentDescriptor<F>>,
    waiting: Seq<ComponentDescriptor<F>>,
    witness: Seq<ComponentDescriptor<F>>,
    k: int,
)
    requires
        placed.len() <= k < witness.len(),
        arranged(placed, waiting, offered_keys(all), offered_by(all)).1.len() == 0,
        witness.take(k) == arranged(placed, waiting, offered_keys(all), offered_by(all)).0.take(k),
        arranged(placed, waiting, offered_keys(all), offered_by(all)).0.len() == witness.len(),
        arranged(placed, waiting, offered_keys(all), offered_by(all)).0[k] != witness[k],
        (placed + waiting).to_multiset() == witness.to_multiset(),
        respects_dependencies(witness, offered_keys(all), offered_by(all)),
        keeps_order(all, waiting),
    ensures
        comes_before(
            all,
            arranged(placed, waiting, offered_keys(all), offered_by(all)).0[k],
            witness[k],
        ),
    decreases waiting.len(),
{
    let keys = offered_keys(all);
    let owners = offered_by(all);
    let sorted = arranged(placed, waiting, keys, owners).0;
    arranging_appends(placed, waiting, keys, owners);
    first_ready_is_first(placed, waiting, keys, owners, 0);
    let both = placed + waiting;
    if first_ready(placed, waiting, keys, owners, 0) is None {
        assert(sorted == placed);
    }
    let i = first_ready(placed, waiting, keys, owners, 0)->0;
    let x = waiting[i];
    let more = placed.push(x);
    let fewer = waiting.remove(i);
    arranging_appends(more, fewer, keys, owners);
    assert(sorted.subrange(0, more.len() as int)[placed.len() as int] == x);
    assert forall|a: int, b: int| 0 <= a < b < fewer.len() implies comes_before(
        all,
        #[trigger] fewer[a],
        #[trigger] fewer[b],
    ) by {
        let a1 = if a < i {
            a
        } else {
            a + 1
        };
        let b1 = if b < i {
            b
        } else {
            b + 1
        };
        assert(fewer[a] == waiting[a1]);
        assert(fewer[b] == waiting[b1]);
    }
    if placed.len() < k {
        vstd::seq_lib::to_multiset_build(placed, x);
        vstd::seq_lib::to_multiset_remove(waiting, i);
        vstd::seq_lib::to_multiset_contains(waiting, x);
        vstd::seq_lib::lemma_multiset_commutative(placed, waiting);
        vstd::seq_lib::lemma_multiset_commutative(more, fewer);
        assert((more + fewer).to_multiset() =~= both.to_multiset());
        least_from_here(all, more, fewer, witness, k);
    } else {
        assert(witness.take(k) =~= placed) by {
            assert(sorted.subrange(0, placed.len() as int) =~= sorted.take(k));
        }
        let y = witness[k];
        let later = witness.skip(k);
        assert(witness =~= placed + later);
        vstd::seq_lib::lemma_multiset_commutative(placed, waiting);
        vstd::seq_lib::lemma_multiset_commutative(placed, later);
        assert(waiting.to_multiset() =~= later.to_multiset()) by {
            assert forall|c: ComponentDescriptor<F>| #[trigger]
                waiting.to_multiset().count(c) == later.to_multiset().count(c) by {
                assert(both.to_multiset().count(c) == placed.to_multiset().count(c)
                    + waiting.to_multiset().count(c));
                assert(witness.to_multiset().count(c) == placed.to_multiset().count(c)
                    + later.to_multiset().count(c));
            }
        }
        assert(later[0] == y);
        assert(later.contains(y));
        same_members(later, waiting, y);
        let m = choose|m: int| 0 <= m < waiting.len() && waiting[m] == y;
        assert forall|name: Seq<char>| #[trigger] depends_on(y, keys, owners, name) implies is_settled(
            placed,
            waiting,
            name,
        ) by {
            if carries_name(waiting, name) {
                let c = choose|c: int| 0 <= c < waiting.len() && (#[trigger] waiting[c]).name@ == name;
                assert(waiting.contains(waiting[c]));
                same_members(waiting, later, waiting[c]);
                let w = choose|w: int| 0 <= w < later.len() && later[w] == waiting[c];
                assert(witness[k + w].name@ == name);
                assert(carries_name(witness, name));
                assert(depends_on(witness[k], keys, owners, name));
                assert(carries_name(witness.take(k), name));
            }
        }
        the_first_goes_next(placed, waiting, keys, owners, 0, m);
        assert(sorted[k] == waiting[i]);
        assert(i < m);
    }
}

/// Of all orders that respect the dependencies the one that is found is the first: where another one
/// departs from it, the component that was found for that place was declared before the other.
pub proof fn the_first_order_is_found<F>(
    all: Seq<ComponentDescriptor<F>>,
    witness: Seq<ComponentDescriptor<F>>,
    k: int,
)
    requires
        witness.to_multiset() == all.to_multiset(),
        respects_dependencies(witness, offered_keys(all), offered_by(all)),
        0 <= k < witness.len(),
        witness.take(k) == arrangement(all).0.take(k),
        witness[k] != arrangement(all).0[k],
    ensures
        comes_before(all, arrangement(all).0[k], witness[k]),
{
    only_a_cycle_gets_stuck(all, witness);
    dependencies_come_first(all);
    assert(Seq::<ComponentDescriptor<F>>::empty() + all =~= all);
    vstd::seq_lib::to_multiset_len(witness);
    vstd::seq_lib::to_multiset_len(arrangement(all).0);
    least_from_here(all, Seq::empty(), all, witness, k);
}

proof fn arranging_leaves_an_order<F>(
    all: Seq<ComponentDescriptor<F>>,
    keys: Seq<Seq<char>>,
    owners: Seq<Seq<char>>,
    k: int,
)
    requires
        0 <= k <= all.len(),
        respects_dependencies(all, keys, owners),
    ensures
        arranged(all.take(k), all.skip(k), keys, owners) == (all, Seq::<ComponentDescriptor<F>>::empty()),
    decreases all.len() - k,
{
    let placed = all.take(k);
    let waiting = all.skip(k);
    if k == all.len() {
        assert(placed =~= all);
        assert(waiting =~= Seq::empty());
    } else {
        assert forall|name: Seq<char>| #[trigger]
            depends_on(waiting[0], keys, owners, name) implies is_settled(placed, waiting, name) by {
            if carries_name(waiting, name) {
                let c = choose|c: int| 0 <= c < waiting.len() && (#[trigger] waiting[c]).name@ == name;
                assert(all[k + c].name@ == name);
                assert(depends_on(all[k], keys, owners, name));
            }
        }
        assert(is_ready(placed, waiting, keys, owners, waiting[0]));
        assert(placed.push(waiting[0]) =~= all.take(k + 1));
        assert(waiting.remove(0) =~= all.skip(k + 1));
        arranging_leaves_an_order(all, keys, owners, k + 1);
    }
}

/// Components that are declared in an order that respects their dependencies keep it.
pub proof fn an_order_is_left_as_it_is<F>(all: Seq<ComponentDescriptor<F>>)
    requires
        respects_dependencies(all, offered_keys(all), offered_by(all)),
    ensures
        arrangement(all).0 == all,
        arrangement(all).1.len() == 0,
{
    assert(all.take(0) =~= Seq::empty());
    assert(all.skip(0) =~= all);
    arranging_leaves_an_order(all, offered_keys(all), offered_by(all), 0);
}

/// Whether a component of that name offers the key.
spec fn offered_in<F>(
    list: Seq<ComponentDescriptor<F>>,
    key: Seq<char>,
    name: Seq<char>,
) -> bool {
    exists|i: int|
        0 <= i < list.len() && (#[trigger] list[i]).name@ == name && text::texts(
            list[i].offers@,
        ).contains(key)
}

/// Each offered key with its owner is an offer of a component.
proof fn entries_are_offers<F>(list: Seq<ComponentDescriptor<F>>, p: int)
    requires
        0 <= p < offered_keys(list).len(),
    ensures
        offered_in(list, offered_keys(list)[p], offered_by(list)[p]),
    decreases list.len(),
{
    let shorter = list.drop_last();
    same_lengths(shorter);
    let n = offered_keys(shorter).len() as int;
    if p < n {
        entries_are_offers(shorter, p);
        let i = choose|i: int|
            0 <= i < shorter.len() && (#[trigger] shorter[i]).name@ == offered_by(shorter)[p]
                && text::texts(shorter[i].offers@).contains(offered_keys(shorter)[p]);
        assert(list[i] == shorter[i]);
    } else {
        let offers = text::texts(list.last().offers@);
        assert(offers[p - n] == offered_keys(list)[p]);
        assert(offers.contains(offered_keys(list)[p]));
        assert(list[list.len() - 1].name@ == offered_by(list)[p]);
    }
}

/// Each offer of a component is an offered key with its owner.
proof fn offers_are_entries<F>(list: Seq<ComponentDescriptor<F>>, i: int, key: Seq<char>) -> (p: int)
    requires
        0 <= i < list.len(),
        text::texts(list[i].offers@).contains(key),
    ensures
        0 <= p < offered_keys(list).len(),
        offered_keys(list)[p] == key,
        offered_by(list)[p] == list[i].name@,
    decreases list.len(),
{
    let shorter = list.drop_last();
    same_lengths(shorter);
    if i < shorter.len() {
        assert(shorter[i] == list[i]);
        offers_are_entries(shorter, i, key)
    } else {
        let offers = text::texts(list.last().offers@);
        let j = choose|j: int| 0 <= j < offers.len() && offers[j] == key;
        offered_keys(shorter).len() + j
    }
}

/// Names without a repeat are distinct, and the other way round.
proof fn no_repeat_is_no_duplicate(names: Seq<Seq<char>>)
    ensures
        first_repeat(names) is None <==> names.no_duplicates(),
    decreases names.len(),
{
    if names.len() > 0 {
        let shorter = names.drop_last();
        no_repeat_is_no_duplicate(shorter);
        if names.no_duplicates() {
            assert forall|a: int, b: int|
                0 <= a < shorter.len() && 0 <= b < shorter.len() && a != b implies shorter[a]
                != shorter[b] by {
                assert(shorter[a] == names[a] && shorter[b] == names[b]);
            }
            if shorter.contains(names.last()) {
                let a = choose|a: int| 0 <= a < shorter.len() && shorter[a] == names.last();
                assert(names[a] == names[names.len() - 1]);
            }
        }
        if first_repeat(names) is None {
            assert forall|a: int, b: int|
                0 <= a < names.len() && 0 <= b < names.len() && a != b implies names[a]
                != names[b] by {
                if a < shorter.len() && b < shorter.len() {
                    assert(shorter[a] != shorter[b]);
                } else if a < shorter.len() {
                    assert(shorter.contains(shorter[a]));
                } else {
                    assert(shorter.contains(shorter[b]));
                }
            }
        }
    }
}

/// The offered keys without those of one component.
proof fn keys_without_one<F>(list: Seq<ComponentDescriptor<F>>, i: int)
    requires
        0 <= i < list.len(),
    ensures
        offered_keys(list).to_multiset() == offered_keys(list.remove(i)).to_multiset().add(
            text::texts(list[i].offers@).to_multiset(),
        ),
    decreases list.len(),
{
    let shorter = list.drop_last();
    let last = text::texts(list.last().offers@);
    vstd::seq_lib::lemma_multiset_commutative(offered_keys(shorter), last);
    if i == shorter.len() {
        assert(list.remove(i) =~= shorter);
    } else {
        let fewer = list.remove(i);
        assert(shorter[i] == list[i]);
        assert(fewer.drop_last() =~= shorter.remove(i));
        assert(fewer.last() == list.last());
        keys_without_one(shorter, i);
        vstd::seq_lib::lemma_multiset_commutative(offered_keys(shorter.remove(i)), last);
        assert(offered_keys(list).to_multiset() =~= offered_keys(fewer).to_multiset().add(
            text::texts(list[i].offers@).to_multiset(),
        ));
    }
}

/// The same components offer the same keys.
proof fn same_components_same_keys<F>(
    a: Seq<ComponentDescriptor<F>>,
    b: Seq<ComponentDescriptor<F>>,
)
    requires
        a.to_multiset() == b.to_multiset(),
    ensures
        offered_keys(a).to_multiset() == offered_keys(b).to_multiset(),
    decreases a.len(),
{
    vstd::seq_lib::to_multiset_len(a);
    vstd::seq_lib::to_multiset_len(b);
    if a.len() > 0 {
        let x = a.last();
        let at = a.len() - 1;
        assert(a.contains(x)) by {
            assert(a[at] == x);
        }
        same_members(a, b, x);
        let i = choose|i: int| 0 <= i < b.len() && b[i] == x;
        vstd::seq_lib::to_multiset_remove(a, at);
        vstd::seq_lib::to_multiset_remove(b, i);
        same_components_same_keys(a.remove(at), b.remove(i));
        keys_without_one(a, at);
        keys_without_one(b, i);
    }
}

/// Where no key is offered twice, dependence does not hang on the order of the offers.
proof fn dependence_is_free_of_order<F>(
    all: Seq<ComponentDescriptor<F>>,
    other: Seq<ComponentDescriptor<F>>,
    component: ComponentDescriptor<F>,
    name: Seq<char>,
)
    requires
        first_repeat(offered_keys(all)) is None,
        offered_keys(all).len() <= usize::MAX,
        all.to_multiset() == other.to_multiset(),
        depends_on(component, offered_keys(other), offered_by(other), name),
    ensures
        depends_on(component, offered_keys(all), offered_by(all), name),
{
    let keys = offered_keys(all);
    let owners = offered_by(all);
    let other_keys = offered_keys(other);
    let other_owners = offered_by(other);
    if !text::texts(component.after@).contains(name) {
        let i = choose|i: int|
            0 <= i < component.needs@.len() && (text::last_position(
                other_keys,
                (#[trigger] component.needs@[i])@,
            ) matches Some(p) && other_owners[p as int] == name);
        let key = component.needs@[i]@;
        let p = text::last_position(other_keys, key)->0 as int;
        same_components_same_keys(all, other);
        vstd::seq_lib::to_multiset_len(keys);
        vstd::seq_lib::to_multiset_len(other_keys);
        text::last_position_is_last(other_keys, key);
        entries_are_offers(other, p);
        let c = choose|c: int|
            0 <= c < other.len() && (#[trigger] other[c]).name@ == name && text::texts(
                other[c].offers@,
            ).contains(key);
        assert(other.contains(other[c]));
        same_members(other, all, other[c]);
        let d = choose|d: int| 0 <= d < all.len() && all[d] == other[c];
        let q = offers_are_entries(all, d, key);
        no_repeat_is_no_duplicate(keys);
        text::last_position_is_last(keys, key);
        assert(keys.contains(key));
        let r = text::last_position(keys, key)->0 as int;
        assert(keys[r] == keys[q]);
        assert(r == q);
        assert(text::last_position(keys, component.needs@[i]@) matches Some(p) && owners[p as int]
            == name);
    }
}

/// Ordering the ordered components once more is no error and changes nothing.
pub proof fn ordering_twice_changes_nothing<F>(all: Seq<ComponentDescriptor<F>>)
    requires
        first_repeat(offered_keys(all)) is None,
        offered_keys(all).len() <= usize::MAX,
        arrangement(all).1.len() == 0,
    ensures
        first_repeat(offered_keys(arrangement(all).0)) is None,
        arrangement(arrangement(all).0).0 == arrangement(all).0,
        arrangement(arrangement(all).0).1.len() == 0,
{
    let sorted = arrangement(all).0;
    dependencies_come_first(all);
    same_components_same_keys(all, sorted);
    no_repeat_is_no_duplicate(offered_keys(all));
    offered_keys(all).lemma_multiset_has_no_duplicates();
    offered_keys(sorted).lemma_multiset_has_no_duplicates_conv();
    no_repeat_is_no_duplicate(offered_keys(sorted));
    assert(respects_dependencies(sorted, offered_keys(sorted), offered_by(sorted))) by {
        assert forall|j: int, name: Seq<char>|
            0 <= j < sorted.len() && #[trigger] depends_on(
                sorted[j],
                offered_keys(sorted),
                offered_by(sorted),
                name,
            ) && carries_name(sorted, name) implies carries_name(sorted.take(j), name) by {
            dependence_is_free_of_order(all, sorted, sorted[j], name);
        }
    }
    an_order_is_left_as_it_is(sorted);
}

/// Whether no two components of the list have one name.
pub open spec fn names_differ<F>(list: Seq<ComponentDescriptor<F>>) -> bool {
    forall|i: int, j: int|
        0 <= i < list.len() && 0 <= j < list.len() && i != j ==> (#[trigger] list[i]).name@ != (
        #[trigger] list[j]).name@
}

/// Whether the component offers, at some place, what the other one needs at this place.
pub open spec fn supplies<F>(
    offerer: ComponentDescriptor<F>,
    needer: ComponentDescriptor<F>,
    i: int,
) -> bool {
    exists|o: int|
        0 <= o < offerer.offers@.len() && (#[trigger] offerer.offers@[o])@ == needer.needs@[i]@
}

/// Whether a key stands at two different places among the offers of the components.
pub open spec fn offers_a_key_twice<F>(all: Seq<ComponentDescriptor<F>>) -> bool {
    exists|c: int, o: int, d: int, p: int|
        {
            &&& 0 <= c < all.len()
            &&& 0 <= d < all.len()
            &&& 0 <= o < all[c].offers@.len()
            &&& 0 <= p < all[d].offers@.len()
            &&& (c, o) != (d, p)
            &&& (#[trigger] all[c].offers@[o])@ == (#[trigger] all[d].offers@[p])@
        }
}

/// Where the offers of a component begin in the row of all offers.
spec fn offers_begin<F>(all: Seq<ComponentDescriptor<F>>, c: int) -> int {
    offered_keys(all.take(c)).len() as int
}

proof fn offers_stand_in_a_row<F>(all: Seq<ComponentDescriptor<F>>, c: int, o: int)
    requires
        0 <= c < all.len(),
        0 <= o < all[c].offers@.len(),
    ensures
        offers_begin(all, c) + all[c].offers@.len() <= offered_keys(all).len(),
        offered_keys(all)[offers_begin(all, c) + o] == all[c].offers@[o]@,
        offered_by(all)[offers_begin(all, c) + o] == all[c].name@,
        c + 1 < all.len() ==> offers_begin(all, c + 1) == offers_begin(all, c)
            + all[c].offers@.len(),
    decreases all.len(),
{
    let shorter = all.drop_last();
    same_lengths(all);
    same_lengths(shorter);
    if c == all.len() - 1 {
        assert(all.take(c) =~= shorter);
        let offers = text::texts(all.last().offers@);
        assert(offered_keys(all)[offers_begin(all, c) + o] == offers[o]);
    } else {
        assert(shorter[c] == all[c]);
        assert(shorter.take(c) =~= all.take(c));
        offers_stand_in_a_row(shorter, c, o);
        assert(all.take(c + 1).drop_last() =~= all.take(c));
        assert(all.take(c + 1).last() == all[c]);
    }
}

proof fn later_offers_begin_later<F>(all: Seq<ComponentDescriptor<F>>, c: int, d: int)
    requires
        0 <= c < d < all.len(),
    ensures
        offers_begin(all, c) + all[c].offers@.len() <= offers_begin(all, d),
    decreases d - c,
{
    assert(all.take(c + 1).drop_last() =~= all.take(c));
    assert(all.take(c + 1).last() == all[c]);
    assert(offers_begin(all, c + 1) == offers_begin(all, c) + all[c].offers@.len());
    if c + 1 < d {
        later_offers_begin_later(all, c + 1, d);
    }
}

/// The place among all offers belongs to one component.
proof fn a_place_belongs_to_a_component<F>(all: Seq<ComponentDescriptor<F>>, p: int) -> (at: (int, int))
    requires
        0 <= p < offered_keys(all).len(),
    ensures
        0 <= at.0 < all.len(),
        0 <= at.1 < all[at.0].offers@.len(),
        p == offers_begin(all, at.0) + at.1,
    decreases all.len(),
{
    let shorter = all.drop_last();
    let n = offered_keys(shorter).len() as int;
    if p < n {
        let at = a_place_belongs_to_a_component(shorter, p);
        assert(shorter.take(at.0) =~= all.take(at.0));
        assert(shorter[at.0] == all[at.0]);
        at
    } else {
        assert(all.take(all.len() - 1) =~= shorter);
        (all.len() - 1, p - n)
    }
}

/// The components are refused for a key that is offered twice where one is, and only there.
pub proof fn a_key_is_offered_once<F>(all: Seq<ComponentDescriptor<F>>)
    ensures
        first_repeat(offered_keys(all)) is Some <==> offers_a_key_twice(all),
{
    let keys = offered_keys(all);
    no_repeat_is_no_duplicate(keys);
    if offers_a_key_twice(all) {
        let (c, o, d, p) = choose|c: int, o: int, d: int, p: int|
            {
                &&& 0 <= c < all.len()
                &&& 0 <= d < all.len()
                &&& 0 <= o < all[c].offers@.len()
                &&& 0 <= p < all[d].offers@.len()
                &&& (c, o) != (d, p)
                &&& (#[trigger] all[c].offers@[o])@ == (#[trigger] all[d].offers@[p])@
            };
        offers_stand_in_a_row(all, c, o);
        offers_stand_in_a_row(all, d, p);
        if c < d {
            later_offers_begin_later(all, c, d);
        } else if d < c {
            later_offers_begin_later(all, d, c);
        }
        assert(keys[offers_begin(all, c) + o] == keys[offers_begin(all, d) + p]);
    }
    if !keys.no_duplicates() {
        let (x, y) = choose|x: int, y: int|
            0 <= x < keys.len() && 0 <= y < keys.len() && x != y && keys[x] == keys[y];
        let (c, o) = a_place_belongs_to_a_component(all, x);
        let (d, p) = a_place_belongs_to_a_component(all, y);
        offers_stand_in_a_row(all, c, o);
        offers_stand_in_a_row(all, d, p);
        assert(all[c].offers@[o]@ == all[d].offers@[p]@);
    }
}

/// What is said of a key that is offered twice: two components that offer it, at two places, the first
/// of them first.
pub proof fn a_second_offer_is_named_with_the_first<F>(
    all: Seq<ComponentDescriptor<F>>,
    error: OrderError,
)
    requires
        error is DuplicateOffer,
        refused(all, error),
        offered_keys(all).len() <= usize::MAX,
    ensures
        exists|c: int, o: int, d: int, p: int|
            {
                &&& 0 <= c <= d < all.len()
                &&& 0 <= o < all[c].offers@.len()
                &&& 0 <= p < all[d].offers@.len()
                &&& c < d || o < p
                &&& (#[trigger] all[c].offers@[o])@ == error->key@
                &&& (#[trigger] all[d].offers@[p])@ == error->key@
                &&& error->first@ == all[c].name@
                &&& error->second@ == all[d].name@
            },
{
    let keys = offered_keys(all);
    let owners = offered_by(all);
    same_lengths(all);
    let i = first_repeat(keys)->0;
    a_repeat_has_its_place(keys);
    let earlier = keys.take(i);
    text::last_position_is_last(earlier, keys[i]);
    let q = text::last_position(earlier, keys[i])->0 as int;
    assert(keys[q] == keys[i]);
    let (c, o) = a_place_belongs_to_a_component(all, q);
    let (d, p) = a_place_belongs_to_a_component(all, i);
    offers_stand_in_a_row(all, c, o);
    offers_stand_in_a_row(all, d, p);
    if d < c {
        later_offers_begin_later(all, d, c);
    }
    assert(all[c].offers@[o]@ == error->key@);
    assert(all[d].offers@[p]@ == error->key@);
}

proof fn a_repeat_has_its_place(names: Seq<Seq<char>>)
    ensures
        first_repeat(names) matches Some(i) ==> 0 <= i < names.len() && names.take(i).contains(
            names[i],
        ),
    decreases names.len(),
{
    if names.len() > 0 {
        let shorter = names.drop_last();
        a_repeat_has_its_place(shorter);
        match first_repeat(shorter) {
            Some(i) => {
                assert(shorter.take(i) =~= names.take(i));
            },
            None => {
                assert(names.take(names.len() - 1) =~= shorter);
            },
        }
    }
}

/// What a component needs from another one makes it depend on that one.
proof fn a_supplier_is_depended_on<F>(
    all: Seq<ComponentDescriptor<F>>,
    offerer: ComponentDescriptor<F>,
    needer: ComponentDescriptor<F>,
    i: int,
)
    requires
        first_repeat(offered_keys(all)) is None,
        offered_keys(all).len() <= usize::MAX,
        all.contains(offerer),
        0 <= i < needer.needs@.len(),
        supplies(offerer, needer, i),
    ensures
        depends_on(needer, offered_keys(all), offered_by(all), offerer.name@),
{
    let keys = offered_keys(all);
    let key = needer.needs@[i]@;
    let d = choose|d: int| 0 <= d < all.len() && all[d] == offerer;
    let o = choose|o: int|
        0 <= o < offerer.offers@.len() && (#[trigger] offerer.offers@[o])@ == needer.needs@[i]@;
    let offers = text::texts(offerer.offers@);
    assert(offers[o] == key);
    assert(offers.contains(key));
    let q = offers_are_entries(all, d, key);
    no_repeat_is_no_duplicate(keys);
    assert(keys.contains(key));
    text::last_position_is_last(keys, key);
    let r = text::last_position(keys, key)->0 as int;
    assert(keys[r] == keys[q]);
    assert(text::last_position(keys, needer.needs@[i]@) matches Some(p) && offered_by(all)[p as int]
        == offerer.name@);
}

/// In an order that is found every component stands behind the offerers of all that it needs: for each
/// of its needs, at whatever place, a component that offers the key comes before it.
pub proof fn a_component_stands_behind_its_suppliers<F>(
    all: Seq<ComponentDescriptor<F>>,
    d: int,
    c: int,
    i: int,
)
    requires
        first_repeat(offered_keys(all)) is None,
        arrangement(all).1.len() == 0,
        offered_keys(all).len() <= usize::MAX,
        names_differ(arrangement(all).0),
        0 <= d < arrangement(all).0.len(),
        0 <= c < arrangement(all).0.len(),
        0 <= i < arrangement(all).0[c].needs@.len(),
        supplies(arrangement(all).0[d], arrangement(all).0[c], i),
    ensures
        d < c,
{
    let sorted = arrangement(all).0;
    dependencies_come_first(all);
    assert(sorted.contains(sorted[d]));
    same_members(sorted, all, sorted[d]);
    a_supplier_is_depended_on(all, sorted[d], sorted[c], i);
    assert(carries_name(sorted, sorted[d].name@));
    assert(carries_name(sorted.take(c), sorted[d].name@));
    let e = choose|e: int|
        0 <= e < sorted.take(c).len() && (#[trigger] sorted.take(c)[e]).name@ == sorted[d].name@;
    assert(sorted[e].name@ == sorted[d].name@);
}

/// In an order that is found every component stands behind each component that it names in `after`, at
/// whatever place.
pub proof fn a_component_stands_behind_what_it_comes_after<F>(
    all: Seq<ComponentDescriptor<F>>,
    d: int,
    c: int,
    i: int,
)
    requires
        arrangement(all).1.len() == 0,
        names_differ(arrangement(all).0),
        0 <= d < arrangement(all).0.len(),
        0 <= c < arrangement(all).0.len(),
        0 <= i < arrangement(all).0[c].after@.len(),
        arrangement(all).0[c].after@[i]@ == arrangement(all).0[d].name@,
    ensures
        d < c,
{
    let sorted = arrangement(all).0;
    dependencies_come_first(all);
    let names = text::texts(sorted[c].after@);
    assert(names[i] == sorted[d].name@);
    assert(names.contains(sorted[d].name@));
    assert(depends_on(sorted[c], offered_keys(all), offered_by(all), sorted[d].name@));
    assert(carries_name(sorted, sorted[d].name@));
    let e = choose|e: int|
        0 <= e < sorted.take(c).len() && (#[trigger] sorted.take(c)[e]).name@ == sorted[d].name@;
    assert(sorted[e].name@ == sorted[d].name@);
}

/// Whether each component of the list stands behind all that supply it and all that it comes after.
pub open spec fn is_executable<F>(list: Seq<ComponentDescriptor<F>>) -> bool {
    &&& forall|d: int, c: int, i: int|
        {
            &&& 0 <= d < list.len()
            &&& 0 <= c < list.len()
            &&& 0 <= i < list[c].needs@.len()
            &&& #[trigger] supplies(list[d], list[c], i)
        } ==> d < c
    &&& forall|d: int, c: int, i: int|
        {
            &&& 0 <= d < list.len()
            &&& 0 <= c < list.len()
            &&& 0 <= i < list[c].after@.len()
            &&& (#[trigger] list[c].after@[i])@ == (#[trigger] list[d]).name@
        } ==> d < c
}

/// An order that keeps every component behind its suppliers and what it comes after respects the
/// dependencies.
proof fn what_is_executable_respects_dependencies<F>(
    all: Seq<ComponentDescriptor<F>>,
    witness: Seq<ComponentDescriptor<F>>,
)
    requires
        witness.to_multiset() == all.to_multiset(),
        offered_keys(all).len() <= usize::MAX,
        names_differ(witness),
        is_executable(witness),
    ensures
        respects_dependencies(witness, offered_keys(all), offered_by(all)),
{
    let keys = offered_keys(all);
    let owners = offered_by(all);
    assert forall|j: int, name: Seq<char>|
        0 <= j < witness.len() && #[trigger] depends_on(witness[j], keys, owners, name)
            && carries_name(witness, name) implies carries_name(witness.take(j), name) by {
        let d = choose|d: int| 0 <= d < witness.len() && (#[trigger] witness[d]).name@ == name;
        let after = text::texts(witness[j].after@);
        if after.contains(name) {
            let i = choose|i: int| 0 <= i < after.len() && after[i] == name;
            assert(witness[j].after@[i]@ == witness[d].name@);
        } else {
            let i = choose|i: int|
                0 <= i < witness[j].needs@.len() && (text::last_position(
                    keys,
                    (#[trigger] witness[j].needs@[i])@,
                ) matches Some(p) && owners[p as int] == name);
            let key = witness[j].needs@[i]@;
            let p = text::last_position(keys, key)->0 as int;
            text::last_position_is_last(keys, key);
            entries_are_offers(all, p);
            let e = choose|e: int|
                0 <= e < all.len() && (#[trigger] all[e]).name@ == name && text::texts(
                    all[e].offers@,
                ).contains(key);
            let offers = text::texts(all[e].offers@);
            let o = choose|o: int| 0 <= o < offers.len() && offers[o] == key;
            assert(all[e].offers@[o]@ == key);
            assert(all.contains(all[e]));
            same_members(all, witness, all[e]);
            let w = choose|w: int| 0 <= w < witness.len() && witness[w] == all[e];
            assert(witness[w].name@ == witness[d].name@);
            assert(w == d);
            assert(supplies(witness[d], witness[j], i));
        }
        assert(d < j);
        assert(witness.take(j)[d].name@ == name);
    }
}

/// Where the components can be evaluated in some order at all, an order is found, and it is the first
/// of those orders: where another one departs from it, the component that was found for that place was
/// declared before the other.
pub proof fn the_first_executable_order_is_found<F>(
    all: Seq<ComponentDescriptor<F>>,
    witness: Seq<ComponentDescriptor<F>>,
    k: int,
)
    requires
        witness.to_multiset() == all.to_multiset(),
        offered_keys(all).len() <= usize::MAX,
        names_differ(witness),
        is_executable(witness),
        0 <= k < witness.len(),
        witness.take(k) == arrangement(all).0.take(k),
    ensures
        arrangement(all).1.len() == 0,
        arrangement(all).0.to_multiset() == all.to_multiset(),
        witness[k] != arrangement(all).0[k] ==> exists|a: int, b: int|
            0 <= a < b < all.len() && #[trigger] all[a] == arrangement(all).0[k]
                && #[trigger] all[b] == witness[k],
{
    what_is_executable_respects_dependencies(all, witness);
    only_a_cycle_gets_stuck(all, witness);
    dependencies_come_first(all);
    if witness[k] != arrangement(all).0[k] {
        the_first_order_is_found(all, witness, k);
    }
}

/// Components that are stuck wait for each other: each of them names one of them in `after`, or needs
/// a key whose offerer is one of them.
pub proof fn the_stuck_wait_for_each_other<F>(all: Seq<ComponentDescriptor<F>>, c: int)
    requires
        offered_keys(all).len() <= usize::MAX,
        0 <= c < arrangement(all).1.len(),
    ensures
        ({
            let left = arrangement(all).1;
            exists|name: Seq<char>|
                {
                    &&& #[trigger] carries_name(left, name)
                    &&& (exists|i: int|
                        0 <= i < left[c].after@.len() && (#[trigger] left[c].after@[i])@ == name)
                        || (exists|i: int, e: int|
                        {
                            &&& 0 <= i < left[c].needs@.len()
                            &&& 0 <= e < all.len()
                            &&& all[e].name@ == name
                            &&& #[trigger] supplies(all[e], left[c], i)
                        })
                }
        }),
{
    let keys = offered_keys(all);
    let owners = offered_by(all);
    let (placed, left) = arrangement(all);
    arranging_keeps_components(Seq::empty(), all, keys, owners);
    first_ready_is_first(placed, left, keys, owners, 0);
    assert(!is_ready(placed, left, keys, owners, left[c]));
    let name = choose|name: Seq<char>|
        #[trigger] depends_on(left[c], keys, owners, name) && !is_settled(placed, left, name);
    assert(carries_name(left, name));
    let after = text::texts(left[c].after@);
    if after.contains(name) {
        let i = choose|i: int| 0 <= i < after.len() && after[i] == name;
        assert(left[c].after@[i]@ == name);
    } else {
        let i = choose|i: int|
            0 <= i < left[c].needs@.len() && (text::last_position(
                keys,
                (#[trigger] left[c].needs@[i])@,
            ) matches Some(p) && owners[p as int] == name);
        let key = left[c].needs@[i]@;
        let p = text::last_position(keys, key)->0 as int;
        text::last_position_is_last(keys, key);
        entries_are_offers(all, p);
        let e = choose|e: int|
            0 <= e < all.len() && (#[trigger] all[e]).name@ == name && text::texts(
                all[e].offers@,
            ).contains(key);
        let offers = text::texts(all[e].offers@);
        let o = choose|o: int| 0 <= o < offers.len() && offers[o] == key;
        assert(all[e].offers@[o]@ == key);
        assert(supplies(all[e], left[c], i));
    }
}

/// Whether one place among the offers of the components comes before another.
pub open spec fn stands_before(one: (int, int), other: (int, int)) -> bool {
    one.0 < other.0 || (one.0 == other.0 && one.1 < other.1)
}

/// Whether this is a place among the offers of the components.
pub open spec fn is_place<F>(all: Seq<ComponentDescriptor<F>>, at: (int, int)) -> bool {
    0 <= at.0 < all.len() && 0 <= at.1 < all[at.0].offers@.len()
}

/// The key that is offered at a place.
pub open spec fn key_at<F>(all: Seq<ComponentDescriptor<F>>, at: (int, int)) -> Seq<char> {
    all[at.0].offers@[at.1]@
}

proof fn no_repeat_before_the_first(names: Seq<Seq<char>>)
    ensures
        first_repeat(names) matches Some(i) ==> 0 <= i < names.len() && names.take(
            i,
        ).no_duplicates(),
    decreases names.len(),
{
    if names.len() > 0 {
        let shorter = names.drop_last();
        no_repeat_before_the_first(shorter);
        match first_repeat(shorter) {
            Some(i) => {
                assert(shorter.take(i) =~= names.take(i));
            },
            None => {
                no_repeat_is_no_duplicate(shorter);
                assert(names.take(names.len() - 1) =~= shorter);
            },
        }
    }
}

/// The repeat that is reported is the first: at the places before it no key is offered twice, and what
/// is named is the key at that place, the component that offers it there and the one that offered it
/// before.
pub proof fn the_first_repeat_is_reported<F>(
    all: Seq<ComponentDescriptor<F>>,
    error: OrderError,
) -> (found: ((int, int), (int, int)))
    requires
        error is DuplicateOffer,
        refused(all, error),
        offered_keys(all).len() <= usize::MAX,
    ensures
        is_place(all, found.0),
        is_place(all, found.1),
        stands_before(found.0, found.1),
        key_at(all, found.0) == error->key@,
        key_at(all, found.1) == error->key@,
        all[found.0.0].name@ == error->first@,
        all[found.1.0].name@ == error->second@,
        forall|one: (int, int), other: (int, int)|
            is_place(all, one) && is_place(all, other) && one != other && stands_before(one, found.1)
                && stands_before(other, found.1) ==> #[trigger] key_at(all, one)
                != #[trigger] key_at(all, other),
{
    let keys = offered_keys(all);
    let owners = offered_by(all);
    same_lengths(all);
    let i = first_repeat(keys)->0;
    a_repeat_has_its_place(keys);
    no_repeat_before_the_first(keys);
    let earlier = keys.take(i);
    text::last_position_is_last(earlier, keys[i]);
    let q = text::last_position(earlier, keys[i])->0 as int;
    assert(keys[q] == keys[i]);
    let first = a_place_belongs_to_a_component(all, q);
    let second = a_place_belongs_to_a_component(all, i);
    offers_stand_in_a_row(all, first.0, first.1);
    offers_stand_in_a_row(all, second.0, second.1);
    if second.0 < first.0 {
        later_offers_begin_later(all, second.0, first.0);
    }
    assert forall|one: (int, int), other: (int, int)|
        is_place(all, one) && is_place(all, other) && one != other && stands_before(one, second)
            && stands_before(other, second) implies #[trigger] key_at(all, one)
        != #[trigger] key_at(all, other) by {
        an_earlier_place_stands_before(all, one, second);
        an_earlier_place_stands_before(all, other, second);
        if stands_before(one, other) {
            an_earlier_place_stands_before(all, one, other);
        } else {
            an_earlier_place_stands_before(all, other, one);
        }
        let x = offers_begin(all, one.0) + one.1;
        let y = offers_begin(all, other.0) + other.1;
        assert(earlier[x] == keys[x]);
        assert(earlier[y] == keys[y]);
    }
    (first, second)
}

proof fn an_earlier_place_stands_before<F>(
    all: Seq<ComponentDescriptor<F>>,
    one: (int, int),
    other: (int, int),
)
    requires
        is_place(all, one),
        is_place(all, other),
        stands_before(one, other),
    ensures
        0 <= offers_begin(all, one.0) + one.1 < offers_begin(all, other.0) + other.1,
        offers_begin(all, other.0) + other.1 < offered_keys(all).len(),
        offered_keys(all)[offers_begin(all, one.0) + one.1] == key_at(all, one),
        offered_keys(all)[offers_begin(all, other.0) + other.1] == key_at(all, other),
{
    offers_stand_in_a_row(all, one.0, one.1);
    offers_stand_in_a_row(all, other.0, other.1);
    if one.0 < other.0 {
        later_offers_begin_later(all, one.0, other.0);
    }
}

/// Whether the items of `part` are those of `whole` at these places, in the same order.
pub open spec fn is_part_of<T>(whole: Seq<T>, part: Seq<T>, places: Seq<int>) -> bool {
    &&& places.len() == part.len()
    &&& forall|k: int|
        0 <= k < places.len() ==> 0 <= #[trigger] places[k] < whole.len() && part[k]
            == whole[places[k]]
    &&& forall|k: int, l: int|
        0 <= k < l < places.len() ==> #[trigger] places[k] < #[trigger] places[l]
}

proof fn what_waits_is_part_of_the_list<F>(
    placed: Seq<ComponentDescriptor<F>>,
    waiting: Seq<ComponentDescriptor<F>>,
    keys: Seq<Seq<char>>,
    owners: Seq<Seq<char>>,
) -> (places: Seq<int>)
    ensures
        is_part_of(waiting, arranged(placed, waiting, keys, owners).1, places),
    decreases waiting.len(),
{
    match first_ready(placed, waiting, keys, owners, 0) {
        Some(i) => if 0 <= i < waiting.len() {
            let rest = waiting.remove(i);
            let inner = what_waits_is_part_of_the_list(
                placed.push(waiting[i]),
                rest,
                keys,
                owners,
            );
            let places = Seq::new(
                inner.len(),
                |k: int|
                    if inner[k] < i {
                        inner[k]
                    } else {
                        inner[k] + 1
                    },
            );
            assert forall|k: int| 0 <= k < places.len() implies 0 <= #[trigger] places[k]
                < waiting.len() && arranged(placed, waiting, keys, owners).1[k]
                == waiting[places[k]] by {
                assert(0 <= inner[k] < rest.len());
            }
            assert forall|k: int, l: int| 0 <= k < l < places.len() implies #[trigger] places[k]
                < #[trigger] places[l] by {
                assert(inner[k] < inner[l]);
            }
            places
        } else {
            Seq::new(waiting.len(), |k: int| k)
        },
        None => Seq::new(waiting.len(), |k: int| k),
    }
}

/// The components that are reported as stuck are all those that found no place, each by its name and in
/// the order in which they were declared; and every other component found one.
pub proof fn every_stuck_component_is_named<F>(
    all: Seq<ComponentDescriptor<F>>,
    error: OrderError,
) -> (places: Seq<int>)
    requires
        error is Cycle,
        refused(all, error),
    ensures
        is_part_of(all, arrangement(all).1, places),
        places.len() > 0,
        error->stuck@.len() == places.len(),
        forall|k: int|
            0 <= k < places.len() ==> error->stuck@[k]@ == all[#[trigger] places[k]].name@,
        (arrangement(all).0 + arrangement(all).1).to_multiset() == all.to_multiset(),
{
    let left = arrangement(all).1;
    let places = what_waits_is_part_of_the_list(
        Seq::empty(),
        all,
        offered_keys(all),
        offered_by(all),
    );
    ordering_keeps_every_component(all);
    assert(text::texts(error->stuck@).len() == names_of(left).len());
    assert forall|k: int| 0 <= k < places.len() implies error->stuck@[k]@
        == all[#[trigger] places[k]].name@ by {
        assert(text::texts(error->stuck@)[k] == names_of(left)[k]);
        assert(left[k] == all[places[k]]);
    }
    places
}

} // verus!
