//! The service module of the subscription contract: services and what they charge.
use vstd::prelude::*;
use crate::address_ids::{id_of, id_or_insert_result, AddressToId};
use crate::payments::PaymentsStorage;
use crate::subscription::{lemma_map_values_insert, SubscriptionError};
use crate::table::Table;
use crate::types::{Address, AddressId, Amount, TokenId};

verus! {

/// The id that stands for "no service".
pub const NULL_ID: AddressId = 0;

/// One service offered by a registered service provider.
pub struct ServiceInfo {
    /// The contract that provides the service.
    pub sc_address: Address,
    /// The token the service is paid in; `None` lets the user pay in any deposited token.
    pub opt_payment_token: Option<TokenId>,
    /// The price per period.
    pub amount: Amount,
}

/// A service as a value: (address, payment token, price).
pub type ServiceInfoView = (Address, Option<Option<Seq<u8>>>, nat);

pub open spec fn service_info_view(i: ServiceInfo) -> ServiceInfoView {
    (
        i.sc_address,
        match i.opt_payment_token {
            Some(t) => Some(t@),
            None => None,
        },
        i.amount@,
    )
}

impl ServiceInfo {
    /// A copy describing the same service.
    pub fn duplicate(&self) -> (r: ServiceInfo)
        ensures
            service_info_view(r) == service_info_view(*self),
    {
        ServiceInfo {
            sc_address: self.sc_address,
            opt_payment_token: match &self.opt_payment_token {
                Some(t) => Some(t.duplicate()),
                None => None,
            },
            amount: self.amount.dup(),
        }
    }
}

/// How often a subscribed user pays.
#[derive(Clone, Copy, Debug, PartialEq, Eq)]
pub enum Periodicity {
    /// Not subscribed; what storage that was never written reads as.
    NotSubscribed,
    Daily,
    Weekly,
    Monthly,
}

/// The module's storage as mathematical values.
pub struct ServiceState {
    /// Service providers; the one at position `i` has id `i + 1`.
    pub service_ids: Seq<Address>,
    /// The services of each provider id.
    pub service_info: Map<AddressId, Seq<ServiceInfoView>>,
    /// Periodicity per (user id, service id, service index).
    pub subscription_type: Map<(AddressId, AddressId, usize), Periodicity>,
}

/// The check of one service to register: its address must be a non-zero contract,
/// its token, if any, must be accepted.
pub open spec fn service_arg_check(accepted: Seq<Option<Seq<u8>>>, arg: (ServiceInfoView, bool)) -> Result<(), SubscriptionError> {
    if !(arg.1 && !arg.0.0.spec_is_zero()) {
        Err(SubscriptionError::InvalidScAddress)
    } else {
        match arg.0.1 {
            Some(t) => if !accepted.contains(t) {
                Err(SubscriptionError::InvalidTokenId)
            } else {
                Ok(())
            },
            None => Ok(()),
        }
    }
}

/// The checks of the first `n` services, in order; the first failing one decides.
pub open spec fn service_args_fold(accepted: Seq<Option<Seq<u8>>>, args: Seq<(ServiceInfoView, bool)>, n: nat) -> Result<(), SubscriptionError>
    decreases n,
{
    if n == 0 {
        Ok(())
    } else {
        match service_args_fold(accepted, args, (n - 1) as nat) {
            Err(e) => Err(e),
            Ok(_) => service_arg_check(accepted, args[n - 1]),
        }
    }
}

/// The answer to `caller` registering the services `args`, each with whether its
/// address holds a contract. Registration changes no storage.
pub open spec fn register_service_result(
    s: ServiceState,
    accepted: Seq<Option<Seq<u8>>>,
    caller: Address,
    args: Seq<(ServiceInfoView, bool)>,
) -> Result<(), SubscriptionError> {
    if args.len() == 0 {
        Err(SubscriptionError::NoArguments)
    } else if id_of(s.service_ids, caller) != NULL_ID {
        Err(SubscriptionError::ServiceAlreadyRegistered)
    } else {
        service_args_fold(accepted, args, args.len())
    }
}

proof fn lemma_args_err_persists(accepted: Seq<Option<Seq<u8>>>, args: Seq<(ServiceInfoView, bool)>, m: nat, n: nat)
    requires
        m <= n,
        service_args_fold(accepted, args, m) is Err,
    ensures
        service_args_fold(accepted, args, n) == service_args_fold(accepted, args, m),
    decreases n - m,
{
    if m < n {
        lemma_args_err_persists(accepted, args, m, (n - 1) as nat);
    }
}

/// The service module's storage.
pub struct ServiceStorage {
    service_id: AddressToId,
    service_info: Table<AddressId, Vec<ServiceInfo>>,
    subscription_type: Table<(AddressId, AddressId, usize), Periodicity>,
}

impl ServiceStorage {
    pub closed spec fn view(&self) -> ServiceState {
        ServiceState {
            service_ids: self.service_id@,
            service_info: self.service_info@.map_values(|v: Vec<ServiceInfo>| v@.map_values(|i: ServiceInfo| service_info_view(i))),
            subscription_type: self.subscription_type@,
        }
    }

    pub closed spec fn wf(&self) -> bool {
        &&& self.service_id.wf()
        &&& self.service_info.wf()
        &&& self.subscription_type.wf()
    }

    /// Empty storage.
    pub fn new() -> (m: ServiceStorage)
        ensures
            m.wf(),
            m@.service_ids == Seq::<Address>::empty(),
            m@.service_info == Map::<AddressId, Seq<ServiceInfoView>>::empty(),
            m@.subscription_type == Map::<(AddressId, AddressId, usize), Periodicity>::empty(),
    {
        let m = ServiceStorage { service_id: AddressToId::new(), service_info: Table::new(), subscription_type: Table::new() };
        assert(m@.service_info =~= Map::<AddressId, Seq<ServiceInfoView>>::empty());
        m
    }

    /// `caller` registers the services `args`; each comes with whether its address holds
    /// a contract. Every service must have a non-zero contract address and an accepted
    /// token, if any. The checked list is not stored.
    pub fn register_service(&self, payments: &PaymentsStorage, caller: &Address, args: &Vec<(ServiceInfo, bool)>) -> (r: Result<(), SubscriptionError>)
        requires
            self.wf(),
        ensures
            r == register_service_result(
                self@,
                payments@.accepted_payment_tokens,
                *caller,
                args@.map_values(|a: (ServiceInfo, bool)| (service_info_view(a.0), a.1)),
            ),
    {
        let ghost av = args@.map_values(|a: (ServiceInfo, bool)| (service_info_view(a.0), a.1));
        if args.len() == 0 {
            return Err(SubscriptionError::NoArguments);
        }
        let existing_service_id = self.service_id.get_id(caller);
        if existing_service_id != NULL_ID {
            return Err(SubscriptionError::ServiceAlreadyRegistered);
        }
        let mut i: usize = 0;
        while i < args.len()
            invariant
                av == args@.map_values(|a: (ServiceInfo, bool)| (service_info_view(a.0), a.1)),
                args@.len() != 0,
                id_of(self@.service_ids, *caller) == NULL_ID,
                i <= args@.len(),
                service_args_fold(payments@.accepted_payment_tokens, av, i as nat) == Ok::<(), SubscriptionError>(()),
            decreases args@.len() - i,
        {
            let arg = &args[i];
            proof {
                assert(av[i as int] == (service_info_view(arg.0), arg.1));
                assert(service_args_fold(payments@.accepted_payment_tokens, av, (i + 1) as nat) == service_arg_check(
                    payments@.accepted_payment_tokens,
                    av[i as int],
                ));
            }
            if !(arg.1 && !arg.0.sc_address.is_zero()) {
                proof {
                    lemma_args_err_persists(payments@.accepted_payment_tokens, av, (i + 1) as nat, av.len());
                }
                return Err(SubscriptionError::InvalidScAddress);
            }
            match &arg.0.opt_payment_token {
                Some(token_id) => {
                    if !payments.is_accepted(token_id) {
                        proof {
                            lemma_args_err_persists(payments@.accepted_payment_tokens, av, (i + 1) as nat, av.len());
                        }
                        return Err(SubscriptionError::InvalidTokenId);
                    }
                },
                None => {},
            }
            i = i + 1;
        }
        Ok(())
    }

    /// The service id of `address`, 0 when it has none.
    pub fn service_id(&self, address: &Address) -> (id: AddressId)
        requires
            self.wf(),
        ensures
            id == id_of(self@.service_ids, *address),
    {
        self.service_id.get_id(address)
    }

    /// Gives `address` a service id if it has none; `None` when ids are exhausted.
    pub fn service_id_or_insert(&mut self, address: &Address) -> (r: Option<AddressId>)
        requires
            old(self).wf(),
        ensures
            final(self).wf(),
            match id_or_insert_result(old(self)@.service_ids, *address) {
                Some((ids, id)) => r == Some(id) && final(self)@ == (ServiceState { service_ids: ids, ..old(self)@ }),
                None => r is None && final(self)@ == old(self)@,
            },
    {
        self.service_id.get_id_or_insert(address)
    }

    /// The services of provider `service_id` (empty when never written).
    pub fn service_info(&self, service_id: AddressId) -> (v: Vec<ServiceInfo>)
        requires
            self.wf(),
        ensures
            v@.map_values(|i: ServiceInfo| service_info_view(i)) == (if self@.service_info.contains_key(service_id) {
                self@.service_info[service_id]
            } else {
                Seq::<ServiceInfoView>::empty()
            }),
    {
        let mut v: Vec<ServiceInfo> = Vec::new();
        match self.service_info.get(&service_id) {
            Some(stored) => {
                let mut i: usize = 0;
                while i < stored.len()
                    invariant
                        i <= stored@.len(),
                        v@.map_values(|i: ServiceInfo| service_info_view(i)) =~= stored@.map_values(
                            |i: ServiceInfo| service_info_view(i),
                        ).subrange(0, i as int),
                    decreases stored@.len() - i,
                {
                    let e = stored[i].duplicate();
                    let ghost prev = v@;
                    v.push(e);
                    assert(v@.map_values(|i: ServiceInfo| service_info_view(i)) =~= prev.map_values(
                        |i: ServiceInfo| service_info_view(i),
                    ).push(service_info_view(e)));
                    i = i + 1;
                }
                assert(stored@.map_values(|i: ServiceInfo| service_info_view(i)).subrange(0, stored@.len() as int)
                    =~= stored@.map_values(|i: ServiceInfo| service_info_view(i)));
            },
            None => {
                assert(v@.map_values(|i: ServiceInfo| service_info_view(i)) =~= Seq::<ServiceInfoView>::empty());
            },
        }
        v
    }

    /// Writes the services of provider `service_id`.
    pub fn set_service_info(&mut self, service_id: AddressId, infos: Vec<ServiceInfo>)
        requires
            old(self).wf(),
        ensures
            final(self).wf(),
            final(self)@ == (ServiceState {
                service_info: old(self)@.service_info.insert(service_id, infos@.map_values(|i: ServiceInfo| service_info_view(i))),
                ..old(self)@
            }),
    {
        proof {
            lemma_map_values_insert(
                self.service_info@,
                service_id,
                infos,
                |v: Vec<ServiceInfo>| v@.map_values(|i: ServiceInfo| service_info_view(i)),
            );
        }
        self.service_info.insert(service_id, infos);
    }

    /// The periodicity of user `user_id` for service `service_index` of provider
    /// `service_id` (`NotSubscribed` when never written).
    pub fn subscription_type(&self, user_id: AddressId, service_id: AddressId, service_index: usize) -> (p: Periodicity)
        requires
            self.wf(),
        ensures
            p == periodicity_of(self@, user_id, service_id, service_index),
    {
        match self.subscription_type.get(&(user_id, service_id, service_index)) {
            Some(p) => *p,
            None => Periodicity::NotSubscribed,
        }
    }

    /// Writes the periodicity of user `user_id` for service `service_index` of
    /// provider `service_id`.
    pub fn set_subscription_type(&mut self, user_id: AddressId, service_id: AddressId, service_index: usize, p: Periodicity)
        requires
            old(self).wf(),
        ensures
            final(self).wf(),
            final(self)@ == (ServiceState {
                subscription_type: old(self)@.subscription_type.insert((user_id, service_id, service_index), p),
                ..old(self)@
            }),
    {
        self.subscription_type.insert((user_id, service_id, service_index), p);
    }
}

/// The stored periodicity, `NotSubscribed` when never written.
pub open spec fn periodicity_of(s: ServiceState, user_id: AddressId, service_id: AddressId, service_index: usize) -> Periodicity {
    if s.subscription_type.contains_key((user_id, service_id, service_index)) {
        s.subscription_type[(user_id, service_id, service_index)]
    } else {
        Periodicity::NotSubscribed
    }
}

/// A service passes registration when its address holds a contract, is not zero, and
/// its token, if it names one, is accepted.
pub open spec fn service_acceptable(accepted: Seq<Option<Seq<u8>>>, arg: (ServiceInfoView, bool)) -> bool {
    &&& arg.1
    &&& !arg.0.0.spec_is_zero()
    &&& (arg.0.1 is Some ==> accepted.contains(arg.0.1->Some_0))
}

/// The first `n` checks pass exactly when each of the first `n` services is
/// acceptable; otherwise the first unacceptable service gives the error.
proof fn lemma_args_fold_meaning(accepted: Seq<Option<Seq<u8>>>, args: Seq<(ServiceInfoView, bool)>, n: nat)
    requires
        n <= args.len(),
    ensures
        (service_args_fold(accepted, args, n) is Ok) <==> (forall|k: int| 0 <= k < n ==> #[trigger] service_acceptable(
            accepted,
            args[k],
        )),
        forall|k: int|
            0 <= k < n && (forall|j: int| 0 <= j < k ==> #[trigger] service_acceptable(accepted, args[j]))
                && !service_acceptable(accepted, args[k]) ==> service_args_fold(accepted, args, n) == Err::<
                (),
                SubscriptionError,
            >(
                if !(args[k].1 && !args[k].0.0.spec_is_zero()) {
                    SubscriptionError::InvalidScAddress
                } else {
                    SubscriptionError::InvalidTokenId
                },
            ),
    decreases n,
{
    if n > 0 {
        let m = (n - 1) as nat;
        lemma_args_fold_meaning(accepted, args, m);
        assert forall|k: int|
            0 <= k < n && (forall|j: int| 0 <= j < k ==> #[trigger] service_acceptable(accepted, args[j]))
                && !service_acceptable(accepted, args[k]) implies service_args_fold(accepted, args, n) == Err::<
            (),
            SubscriptionError,
        >(
            if !(args[k].1 && !args[k].0.0.spec_is_zero()) {
                SubscriptionError::InvalidScAddress
            } else {
                SubscriptionError::InvalidTokenId
            },
        ) by {
            if k < m {
                lemma_args_err_persists(accepted, args, m, n);
            } else {
                assert(service_args_fold(accepted, args, m) is Ok);
            }
        }
        if service_args_fold(accepted, args, n) is Ok {
            assert(service_args_fold(accepted, args, m) is Ok);
            assert forall|k: int| 0 <= k < n implies #[trigger] service_acceptable(accepted, args[k]) by {
                if k == m {
                    assert(service_arg_check(accepted, args[k]) is Ok);
                }
            }
        }
        if forall|k: int| 0 <= k < n ==> #[trigger] service_acceptable(accepted, args[k]) {
            assert(service_acceptable(accepted, args[m as int]));
            assert forall|k: int| 0 <= k < m implies #[trigger] service_acceptable(accepted, args[k]) by {
                assert(service_acceptable(accepted, args[k]));
            }
        }
    }
}

/// Registration checks every service it is given: for a caller without a service id
/// and a non-empty list it succeeds exactly when every service is acceptable, and
/// otherwise fails with the reason of the first service that is not (a non-contract or
/// zero address, else an unaccepted token).
pub proof fn law_register_checks_every_service(
    s: ServiceState,
    accepted: Seq<Option<Seq<u8>>>,
    caller: Address,
    args: Seq<(ServiceInfoView, bool)>,
)
    requires
        args.len() > 0,
        id_of(s.service_ids, caller) == NULL_ID,
    ensures
        (register_service_result(s, accepted, caller, args) is Ok) <==> (forall|k: int|
            0 <= k < args.len() ==> #[trigger] service_acceptable(accepted, args[k])),
        forall|k: int|
            0 <= k < args.len() && (forall|j: int| 0 <= j < k ==> #[trigger] service_acceptable(accepted, args[j]))
                && !service_acceptable(accepted, args[k]) ==> register_service_result(s, accepted, caller, args) == Err::<
                (),
                SubscriptionError,
            >(
                if !(args[k].1 && !args[k].0.0.spec_is_zero()) {
                    SubscriptionError::InvalidScAddress
                } else {
                    SubscriptionError::InvalidTokenId
                },
            ),
{
    lemma_args_fold_meaning(accepted, args, args.len());
}

/// What is set is what is read: after the periodicity of (user `u`, service `sid`,
/// index `i`) is set to `p`, reading it gives `p` (whether or not `u == sid`), and
/// every other (user, service, index) reads as before.
pub proof fn law_subscription_type_reads_what_was_set(
    svc: ServiceState,
    u: AddressId,
    sid: AddressId,
    i: usize,
    p: Periodicity,
    u2: AddressId,
    sid2: AddressId,
    i2: usize,
)
    ensures
        ({
            let after = ServiceState {
                subscription_type: svc.subscription_type.insert((u, sid, i), p),
                ..svc
            };
            &&& periodicity_of(after, u, sid, i) == p
            &&& (u2, sid2, i2) != (u, sid, i) ==> periodicity_of(after, u2, sid2, i2) == periodicity_of(svc, u2, sid2, i2)
            &&& periodicity_of(ServiceState { subscription_type: Map::empty(), ..svc }, u, sid, i) == Periodicity::NotSubscribed
        }),
{
}

} // verus!
