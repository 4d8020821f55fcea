//! Connecting: where to, with which passwords, and the handshake that
//! offers them to the server one by one.
use crate::cmd::auth::auth_request;
use crate::cmd::{Auth, AuthCommand};
use crate::errors::{CommandError, ConnectError};
use vstd::prelude::*;

verus! {

/// The texts of a list of strings.
pub open spec fn texts(list: Seq<String>) -> Seq<Seq<char>> {
    Seq::new(list.len(), |i: int| list[i]@)
}

/// Redis connector
pub struct RedisConnector<A> {
    address: A,
    passwords: Vec<String>,
}

impl<A> RedisConnector<A> {
    /// The address to connect to.
    pub closed spec fn address(&self) -> A {
        self.address
    }

    /// The configured passwords, in the order in which they are offered.
    pub closed spec fn passwords(&self) -> Seq<Seq<char>> {
        texts(self.passwords@)
    }

    /// Create new redis connector
    pub fn new(address: A) -> (connector: RedisConnector<A>)
        ensures
            connector.address() == address,
            connector.passwords() == Seq::<Seq<char>>::empty(),
    {
        let connector = RedisConnector { address, passwords: Vec::new() };
        assert(connector.passwords() =~= Seq::<Seq<char>>::empty());
        connector
    }

    /// Add redis auth password
    pub fn password(self, password: &str) -> (connector: Self)
        ensures
            connector.address() == self.address(),
            connector.passwords() == self.passwords().push(password@),
    {
        let mut connector = self;
        connector.passwords.push(password.to_owned());
        assert(connector.passwords() =~= self.passwords().push(password@));
        connector
    }

    /// Use custom connector
    pub fn connector(self) -> (connector: RedisConnector<A>)
        ensures
            connector.address() == self.address(),
            connector.passwords() == self.passwords(),
    {
        RedisConnector { address: self.address, passwords: self.passwords }
    }

    /// The address to connect to.
    pub fn target(&self) -> (address: &A)
        ensures
            *address == self.address(),
    {
        &self.address
    }

    /// The handshake to run once the transport is established.
    pub fn handshake(&self) -> (h: Handshake)
        ensures
            h.passwords() == self.passwords(),
            h.offered() == 0,
    {
        let mut passwords: Vec<String> = Vec::new();
        let mut i: usize = 0;
        while i < self.passwords.len()
            invariant
                i <= self.passwords.len(),
                passwords@.len() == i,
                forall|j: int| 0 <= j < i ==> (#[trigger] passwords@[j])@ == self.passwords@[j]@,
            decreases self.passwords.len() - i,
        {
            passwords.push(self.passwords[i].clone());
            i += 1;
        }
        let h = Handshake { passwords, offered: 0 };
        assert(h.passwords() =~= self.passwords());
        h
    }
}

/// The address that is connected to, of those that a name resolved to: the
/// last one. A name that resolved to none cannot be connected to.
pub fn pick_address<T>(resolved: Vec<T>) -> (r: Result<T, ConnectError>)
    ensures
        match r {
            Ok(addr) => resolved@.len() > 0 && addr == resolved@.last(),
            Err(err) => resolved@.len() == 0 && (err matches ConnectError::Connect(text) && text@
                == "none socket addr!"@),
        },
{
    let mut resolved = resolved;
    match resolved.pop() {
        Some(addr) => Ok(addr),
        None => Err(ConnectError::Connect("none socket addr!".to_owned())),
    }
}

/// What the handshake asks for next.
pub enum AuthStep {
    /// The connection is ready for use.
    Ready,
    /// Send this command, alone, and report what came of it.
    Offer(AuthCommand),
    /// Connecting has failed: drop the transport.
    Failed(ConnectError),
}

/// The password handshake of one connection. The passwords are offered in
/// their order, one at a time, until the server accepts one.
pub struct Handshake {
    passwords: Vec<String>,
    offered: usize,
}

/// Whether `reply` says that the server refuses the password that was
/// offered: the command read a refusal from the reply, or the server answered
/// with an error reply.
pub open spec fn is_refusal(reply: Result<bool, CommandError>) -> bool {
    match reply {
        Ok(accepted) => !accepted,
        Err(CommandError::Error(_)) => true,
        Err(_) => false,
    }
}

impl Handshake {
    /// The passwords of the handshake.
    pub closed spec fn passwords(&self) -> Seq<Seq<char>> {
        texts(self.passwords@)
    }

    /// How many passwords have been offered so far.
    pub closed spec fn offered(&self) -> nat {
        self.offered as nat
    }

    #[verifier::type_invariant]
    spec fn inv(self) -> bool {
        self.offered <= self.passwords@.len()
    }

    /// Offers the password at `index`.
    fn offer(&self, index: usize) -> (cmd: AuthCommand)
        requires
            index < self.passwords@.len(),
        ensures
            cmd.request() == auth_request(self.passwords()[index as int]),
    {
        Auth(self.passwords[index].as_str())
    }

    /// Begins the handshake. Without passwords the connection is ready at
    /// once; otherwise the first password is offered.
    pub fn start(&mut self) -> (step: AuthStep)
        ensures
            final(self).passwords() == old(self).passwords(),
            old(self).passwords().len() == 0 ==> step is Ready && final(self).offered() == 0,
            old(self).passwords().len() > 0 ==> {
                &&& step matches AuthStep::Offer(cmd)
                &&& cmd.request() == auth_request(old(self).passwords()[0])
                &&& final(self).offered() == 1
            },
    {
        proof {
            use_type_invariant(&*self);
        }
        if self.passwords.len() == 0 {
            self.offered = 0;
            AuthStep::Ready
        } else {
            self.offered = 1;
            AuthStep::Offer(self.offer(0))
        }
    }

    /// Goes on with the handshake: the command that was offered last has
    /// ended with `reply`. A success ends the handshake. A refusal, whether
    /// the server gave it as a status or as an error reply, brings the next
    /// password, or `Unauthorized` when there is none left. Any other
    /// failure of the command ends the handshake with that failure.
    pub fn on_reply(&mut self, reply: Result<bool, CommandError>) -> (step: AuthStep)
        ensures
            final(self).passwords() == old(self).passwords(),
            reply matches Ok(true) ==> step is Ready && final(self).offered() == old(
                self,
            ).offered(),
            is_refusal(reply) ==> if old(self).offered() < old(self).passwords().len() {
                &&& step matches AuthStep::Offer(cmd)
                &&& cmd.request() == auth_request(
                    old(self).passwords()[old(self).offered() as int],
                )
                &&& final(self).offered() == old(self).offered() + 1
            } else {
                &&& step matches AuthStep::Failed(ConnectError::Unauthorized)
                &&& final(self).offered() == old(self).offered()
            },
            !(reply matches Ok(true)) && !is_refusal(reply) ==> {
                &&& reply matches Err(err)
                &&& step matches AuthStep::Failed(ConnectError::Command(cause))
                &&& cause == err
                &&& final(self).offered() == old(self).offered()
            },
    {
        proof {
            use_type_invariant(&*self);
        }
        match reply {
            Ok(true) => AuthStep::Ready,
            Ok(false) | Err(CommandError::Error(_)) => {
                if self.offered < self.passwords.len() {
                    let index: usize = self.offered;
                    self.offered = index + 1;
                    AuthStep::Offer(self.offer(index))
                } else {
                    AuthStep::Failed(ConnectError::Unauthorized)
                }
            },
            Err(err) => AuthStep::Failed(ConnectError::Command(err)),
        }
    }
}

} // verus!
