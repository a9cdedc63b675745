use vstd::prelude::*;

use crate::pci::{parse_pci_addr, pci_spec, PciAddress};

verus! {

/// Why the devices to benchmark could not be chosen.
#[derive(Debug, Clone, Copy, PartialEq, Eq, Structural)]
pub enum SelectError {
    /// No NVMe device was found.
    NoDevices,
    /// More devices were asked for than were found.
    TooFew { requested: u32, available: usize },
    /// The address at this position of the list is not a PCI address.
    InvalidAddress(usize),
    /// No device was found at the address at this position of the list.
    NotFound(usize),
}

/// The position of the first device at address `a`, if any.
pub open spec fn first_at(found: Seq<PciAddress>, a: PciAddress) -> Option<int>
    decreases found.len(),
{
    if found.len() == 0 {
        None
    } else {
        match first_at(found.drop_last(), a) {
            Some(i) => Some(i),
            None => if found.last() == a { Some(found.len() - 1) } else { None },
        }
    }
}

/// The devices named by the addresses `addrs`, in order: for each address
/// the first device found there. The first address that does not parse,
/// or names no device, is the error.
pub open spec fn resolve(found: Seq<PciAddress>, addrs: Seq<Seq<char>>) -> Result<Seq<usize>, SelectError>
    decreases addrs.len(),
{
    if addrs.len() == 0 {
        Ok(Seq::empty())
    } else {
        match resolve(found, addrs.drop_last()) {
            Err(e) => Err(e),
            Ok(v) => match pci_spec(addrs.last()) {
                None => Err(SelectError::InvalidAddress((addrs.len() - 1) as usize)),
                Some(a) => match first_at(found, a) {
                    None => Err(SelectError::NotFound((addrs.len() - 1) as usize)),
                    Some(i) => Ok(v.push(i as usize)),
                },
            },
        }
    }
}

/// The devices to benchmark among those `found`: the first `num_devices`
/// of them when no address is given, else the ones at the addresses.
pub open spec fn selection(found: Seq<PciAddress>, num_devices: u32, addrs: Seq<Seq<char>>) -> Result<
    Seq<usize>,
    SelectError,
> {
    if found.len() == 0 {
        Err(SelectError::NoDevices)
    } else if addrs.len() == 0 {
        if num_devices > found.len() {
            Err(SelectError::TooFew { requested: num_devices, available: found.len() as usize })
        } else {
            Ok(Seq::new(num_devices as nat, |i: int| i as usize))
        }
    } else {
        resolve(found, addrs)
    }
}

/// The position of the first device at `a`, if any.
fn find_device(found: &Vec<PciAddress>, a: PciAddress) -> (r: Option<usize>)
    ensures
        match r {
            Some(i) => first_at(found@, a) == Some(i as int),
            None => first_at(found@, a) is None,
        },
{
    let mut i: usize = 0;
    while i < found.len()
        invariant
            i <= found@.len(),
            forall|k: int| 0 <= k < i ==> found@[k] != a,
        decreases found@.len() - i,
    {
        if found[i] == a {
            proof {
                lemma_first_at(found@, a, i as int);
            }
            return Some(i);
        }
        i = i + 1;
    }
    proof {
        lemma_first_at_none(found@, a);
    }
    None
}

/// The first device at `a` is at `i` when none before `i` is.
proof fn lemma_first_at(found: Seq<PciAddress>, a: PciAddress, i: int)
    requires
        0 <= i < found.len(),
        found[i] == a,
        forall|k: int| 0 <= k < i ==> found[k] != a,
    ensures
        first_at(found, a) == Some(i),
    decreases found.len(),
{
    if i < found.len() - 1 {
        lemma_first_at(found.drop_last(), a, i);
    } else {
        lemma_first_at_none(found.drop_last(), a);
    }
}

/// No device is at `a` when none is.
proof fn lemma_first_at_none(found: Seq<PciAddress>, a: PciAddress)
    requires
        forall|k: int| 0 <= k < found.len() ==> found[k] != a,
    ensures
        first_at(found, a) is None,
    decreases found.len(),
{
    if found.len() > 0 {
        lemma_first_at_none(found.drop_last(), a);
    }
}

/// Chooses the devices to benchmark among the devices `found`: with no
/// address given, the first `num_devices` (which must not exceed what was
/// found); else, for each address in order, the first device found there.
/// The result holds positions in `found`.
pub fn select_devices(found: &Vec<PciAddress>, num_devices: u32, pci_addrs: &Vec<String>) -> (r: Result<
    Vec<usize>,
    SelectError,
>)
    ensures
        match r {
            Ok(v) => selection(found@, num_devices, pci_addrs@.map_values(|s: String| s@)) == Ok::<
                Seq<usize>,
                SelectError,
            >(v@),
            Err(e) => selection(found@, num_devices, pci_addrs@.map_values(|s: String| s@)) == Err::<
                Seq<usize>,
                SelectError,
            >(e),
        },
{
    let ghost addrs = pci_addrs@.map_values(|s: String| s@);
    if found.len() == 0 {
        return Err(SelectError::NoDevices);
    }
    if pci_addrs.len() == 0 {
        if num_devices as usize > found.len() {
            return Err(SelectError::TooFew { requested: num_devices, available: found.len() });
        }
        let mut v: Vec<usize> = Vec::new();
        let mut i: usize = 0;
        while i < num_devices as usize
            invariant
                i <= num_devices,
                v@ == Seq::new(i as nat, |k: int| k as usize),
            decreases num_devices - i,
        {
            v.push(i);
            i = i + 1;
            proof {
                assert(v@ =~= Seq::new(i as nat, |k: int| k as usize));
            }
        }
        return Ok(v);
    }
    let mut v: Vec<usize> = Vec::new();
    let mut k: usize = 0;
    while k < pci_addrs.len()
        invariant
            k <= pci_addrs@.len(),
            found@.len() > 0,
            pci_addrs@.len() > 0,
            addrs == pci_addrs@.map_values(|s: String| s@),
            resolve(found@, addrs.take(k as int)) == Ok::<Seq<usize>, SelectError>(v@),
        decreases pci_addrs@.len() - k,
    {
        let ghost pre = addrs.take(k as int);
        proof {
            assert(addrs.take(k + 1).drop_last() =~= pre);
            assert(addrs.take(k + 1).last() == pci_addrs@[k as int]@);
        }
        let a = match parse_pci_addr(pci_addrs[k].as_str()) {
            Some(a) => a,
            None => {
                proof {
                    assert(resolve(found@, addrs.take(k + 1)) == Err::<Seq<usize>, SelectError>(
                        SelectError::InvalidAddress(k),
                    ));
                    lemma_resolve_error_stays(found@, addrs, k as int + 1);
                    assert(addrs.len() > 0);
                }
                return Err(SelectError::InvalidAddress(k));
            },
        };
        let i = match find_device(found, a) {
            Some(i) => i,
            None => {
                proof {
                    assert(resolve(found@, addrs.take(k + 1)) == Err::<Seq<usize>, SelectError>(
                        SelectError::NotFound(k),
                    ));
                    lemma_resolve_error_stays(found@, addrs, k as int + 1);
                    assert(addrs.len() > 0);
                }
                return Err(SelectError::NotFound(k));
            },
        };
        v.push(i);
        k = k + 1;
        proof {
            assert(resolve(found@, addrs.take(k as int)) == Ok::<Seq<usize>, SelectError>(v@));
        }
    }
    proof {
        assert(addrs.take(k as int) =~= addrs);
        assert(addrs.len() > 0);
    }
    Ok(v)
}

/// Once the addresses up to `k` give an error, all of them give it.
proof fn lemma_resolve_error_stays(found: Seq<PciAddress>, addrs: Seq<Seq<char>>, k: int)
    requires
        0 <= k <= addrs.len(),
        resolve(found, addrs.take(k)) is Err,
    ensures
        resolve(found, addrs) == resolve(found, addrs.take(k)),
    decreases addrs.len() - k,
{
    if k == addrs.len() {
        assert(addrs.take(k) =~= addrs);
    } else {
        assert(addrs.take(k + 1).drop_last() =~= addrs.take(k));
        lemma_resolve_error_stays(found, addrs, k + 1);
    }
}

/// Whether two of the addresses are the same.
pub open spec fn has_repeat(s: Seq<PciAddress>) -> bool {
    exists|i: int, j: int| 0 <= i < j < s.len() && s[i] == s[j]
}

/// Whether the chosen devices include one address twice, so that two
/// devices would alias the same controller.
pub fn has_duplicate_address(addrs: &Vec<PciAddress>) -> (r: bool)
    ensures
        r == has_repeat(addrs@),
{
    let mut j: usize = 0;
    while j < addrs.len()
        invariant
            j <= addrs@.len(),
            !has_repeat(addrs@.take(j as int)),
        decreases addrs@.len() - j,
    {
        let mut i: usize = 0;
        while i < j
            invariant
                i <= j < addrs@.len(),
                forall|k: int| 0 <= k < i ==> addrs@[k] != addrs@[j as int],
            decreases j - i,
        {
            if addrs[i] == addrs[j] {
                proof {
                    assert(has_repeat(addrs@)) by {
                        assert(addrs@[i as int] == addrs@[j as int]);
                    }
                }
                return true;
            }
            i = i + 1;
        }
        proof {
            let t = addrs@.take(j + 1);
            assert forall|a: int, b: int| 0 <= a < b < t.len() implies t[a] != t[b] by {
                if b < j {
                    assert(addrs@.take(j as int)[a] == t[a] && addrs@.take(j as int)[b] == t[b]);
                }
            }
        }
        j = j + 1;
    }
    proof {
        assert(addrs@.take(j as int) =~= addrs@);
    }
    false
}

} // verus!
