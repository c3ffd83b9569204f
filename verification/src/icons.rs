use vstd::prelude::*;
use crate::state::{Oauth2System, State};

verus! {

/// An OAuth2 client whose icon is to be fetched from `image_url`.
#[derive(Debug, Clone, PartialEq)]
pub struct IconRequest {
    pub client_name: String,
    pub image_url: String,
}

/// The clients that name an image in their Kubernetes settings, as
/// (client name, image URL) pairs, in the order of the clients.
pub open spec fn icon_requests_of(clients: Seq<(String, Oauth2System)>) -> Seq<(Seq<char>, Seq<char>)>
    decreases clients.len(),
{
    if clients.len() == 0 {
        Seq::empty()
    } else {
        let r = icon_requests_of(clients.drop_last());
        let (name, sys) = clients.last();
        match sys.k8s {
            Some(k) => match k.image_url {
                Some(url) => r.push((name@, url@)),
                None => r,
            },
            None => r,
        }
    }
}

/// The icons to fetch for the clients of the state.
pub fn icon_requests(state: &State) -> (r: Vec<IconRequest>)
    ensures
        r@.map_values(|q: IconRequest| (q.client_name@, q.image_url@)) == icon_requests_of(
            state.systems.oauth2@,
        ),
{
    let clients = &state.systems.oauth2;
    let mut out: Vec<IconRequest> = Vec::new();
    let mut i: usize = 0;
    proof {
        assert(clients@.take(0).len() == 0);
        assert(out@.map_values(|q: IconRequest| (q.client_name@, q.image_url@)) =~= Seq::<
            (Seq<char>, Seq<char>),
        >::empty());
    }
    while i < clients.len()
        invariant
            i <= clients.len(),
            out@.map_values(|q: IconRequest| (q.client_name@, q.image_url@)) == icon_requests_of(
                clients@.take(i as int),
            ),
        decreases clients.len() - i,
    {
        proof {
            assert(clients@.take(i + 1).drop_last() =~= clients@.take(i as int));
            assert(clients@.take(i + 1).last() == clients@[i as int]);
        }
        let (name, sys) = &clients[i];
        match &sys.k8s {
            Some(k8s) => match &k8s.image_url {
                Some(url) => {
                    let ghost before = out@;
                    let q = IconRequest { client_name: name.clone(), image_url: url.clone() };
                    out.push(q);
                    proof {
                        assert(out@.map_values(|q: IconRequest| (q.client_name@, q.image_url@))
                            =~= before.map_values(|q: IconRequest| (q.client_name@, q.image_url@)).push(
                            (name@, url@),
                        ));
                    }
                },
                None => {},
            },
            None => {},
        }
        i += 1;
    }
    proof {
        assert(clients@.take(i as int) =~= clients@);
    }
    out
}

/// A client after its icon was stored at `path`.
pub open spec fn with_image_file(sys: Oauth2System, path: String) -> Oauth2System {
    Oauth2System { image_file: Some(path), ..sys }
}

/// Every client of `old` named `client_name` has its image file set to
/// `path`; everything else is as it was.
pub open spec fn icon_recorded(old: State, new: State, client_name: Seq<char>, path: String) -> bool {
    &&& new.groups == old.groups
    &&& new.persons == old.persons
    &&& new.systems.oauth2@.len() == old.systems.oauth2@.len()
    &&& forall|i: int|
        0 <= i < old.systems.oauth2@.len() ==> #[trigger] new.systems.oauth2@[i] == (if old.systems.oauth2@[i].0@
            == client_name {
            (old.systems.oauth2@[i].0, with_image_file(old.systems.oauth2@[i].1, path))
        } else {
            old.systems.oauth2@[i]
        })
}

/// Points the named client at the icon stored at `path`.
pub fn record_icon(state: &mut State, client_name: &String, path: String)
    ensures
        icon_recorded(*old(state), *final(state), client_name@, path),
        old(state).well_formed() ==> final(state).well_formed(),
{
    let ghost orig = state.systems.oauth2@;
    let mut i: usize = 0;
    while i < state.systems.oauth2.len()
        invariant
            i <= state.systems.oauth2@.len(),
            state.systems.oauth2@.len() == orig.len(),
            state.groups == old(state).groups,
            state.persons == old(state).persons,
            orig == old(state).systems.oauth2@,
            forall|j: int|
                0 <= j < orig.len() ==> #[trigger] state.systems.oauth2@[j] == (if j < i && orig[j].0@
                    == client_name@ {
                    (orig[j].0, with_image_file(orig[j].1, path))
                } else {
                    orig[j]
                }),
        decreases orig.len() - i,
    {
        if state.systems.oauth2[i].0 == *client_name {
            let (name, sys) = state.systems.oauth2.remove(i);
            let updated = Oauth2System { image_file: Some(path.clone()), ..sys };
            state.systems.oauth2.insert(i, (name, updated));
        }
        i += 1;
    }
    proof {
        let o = old(state).systems.oauth2@;
        let f = state.systems.oauth2@;
        assert forall|p: int| 0 <= p < f.len() implies #[trigger] f[p].0 == o[p].0 by {
            assert(f[p] == (if o[p].0@ == client_name@ {
                (o[p].0, with_image_file(o[p].1, path))
            } else {
                o[p]
            }));
        }
    }
}


/// The icons requested for the clients `a + b` are those for `a` followed
/// by those for `b`: each client is looked at on its own.
pub proof fn lemma_icon_requests_append(a: Seq<(String, Oauth2System)>, b: Seq<(String, Oauth2System)>)
    ensures
        icon_requests_of(a + b) == icon_requests_of(a) + icon_requests_of(b),
    decreases b.len(),
{
    if b.len() == 0 {
        assert(a + b =~= a);
        assert(icon_requests_of(a) + icon_requests_of(b) =~= icon_requests_of(a));
    } else {
        lemma_icon_requests_append(a, b.drop_last());
        assert((a + b).drop_last() =~= a + b.drop_last());
        assert((a + b).last() == b.last());
        let r = icon_requests_of(a) + icon_requests_of(b.drop_last());
        let (name, sys) = b.last();
        if sys.k8s is Some && sys.k8s->0.image_url is Some {
            let q = (name@, sys.k8s->0.image_url->0@);
            assert(r.push(q) =~= icon_requests_of(a) + icon_requests_of(b.drop_last()).push(q));
        }
    }
}

/// One client asks for its icon exactly when its Kubernetes settings name
/// an image URL, and then for that URL.
pub proof fn lemma_icon_requests_one(name: String, sys: Oauth2System)
    ensures
        (sys.k8s is Some && sys.k8s->0.image_url is Some) ==> icon_requests_of(seq![(name, sys)])
            == seq![(name@, sys.k8s->0.image_url->0@)],
        !(sys.k8s is Some && sys.k8s->0.image_url is Some) ==> icon_requests_of(seq![(name, sys)]).len()
            == 0,
{
    let one = seq![(name, sys)];
    assert(one.drop_last() =~= Seq::<(String, Oauth2System)>::empty());
    assert(one.last() == (name, sys));
    assert(icon_requests_of(one.drop_last()) == Seq::<(Seq<char>, Seq<char>)>::empty());
    if sys.k8s is Some && sys.k8s->0.image_url is Some {
        assert(Seq::<(Seq<char>, Seq<char>)>::empty().push((name@, sys.k8s->0.image_url->0@)) =~= seq![
            (name@, sys.k8s->0.image_url->0@),
        ]);
    }
}

} // verus!
