//! Re-balanceo de un nodo mediante las rotaciones AVL.
use vstd::prelude::*;
use crate::modelo::{
    Nodo, altura_guardada, altura_real, alturas_correctas, contenido, en_orden, equilibrado,
    es_avl, factor, ordenado, lema_altura_guardada,
};
use crate::altura::obtener_balance;
use crate::rotaciones::{
    rotar_derecha, rotar_izquierda, rotacion_derecha, rotacion_izquierda, lema_rotacion_derecha,
    lema_rotacion_izquierda,
};

verus! {

/// El resultado de re-balancear `n` según las alturas guardadas: con balance mayor que 1
/// rota a la derecha, antes a la izquierda el hijo izquierdo si el balance de este es
/// negativo; con balance menor que -1, lo simétrico; si no, `n` tal cual.
pub open spec fn reequilibrado(n: Nodo) -> Nodo {
    let b = altura_guardada(n.izquierdo) - altura_guardada(n.derecho);
    if b > 1 {
        let l = n.izquierdo->0;
        if altura_guardada(l.izquierdo) - altura_guardada(l.derecho) < 0 {
            rotacion_derecha(Nodo { izquierdo: Some(Box::new(rotacion_izquierda(*l))), ..n })
        } else {
            rotacion_derecha(n)
        }
    } else if b < -1 {
        let d = n.derecho->0;
        if altura_guardada(d.izquierdo) - altura_guardada(d.derecho) > 0 {
            rotacion_izquierda(Nodo { derecho: Some(Box::new(rotacion_derecha(*d))), ..n })
        } else {
            rotacion_izquierda(n)
        }
    } else {
        n
    }
}

/// Un nodo listo para re-balancear tras una inserción o eliminación en un AVL: ordenado,
/// con alturas correctas, subárboles equilibrados y factor de balance entre -2 y 2.
pub open spec fn casi_avl(n: Nodo) -> bool {
    &&& ordenado(Some(Box::new(n)))
    &&& alturas_correctas(Some(Box::new(n)))
    &&& equilibrado(n.izquierdo)
    &&& equilibrado(n.derecho)
    &&& -2 <= factor(n) <= 2
}

/// Lo que garantiza el re-balanceo de un nodo con alturas correctas (ver `balancear`).
pub open spec fn garantias_reequilibrado(n: Nodo, r: Nodo) -> bool {
    &&& alturas_correctas(Some(Box::new(r)))
    &&& en_orden(Some(Box::new(r))) == en_orden(Some(Box::new(n)))
    &&& altura_real(Some(Box::new(r))) <= altura_real(Some(Box::new(n)))
    &&& ordenado(Some(Box::new(n))) ==> {
        &&& ordenado(Some(Box::new(r)))
        &&& contenido(Some(Box::new(r))) == contenido(Some(Box::new(n)))
    }
    &&& casi_avl(n) ==> {
        &&& es_avl(Some(Box::new(r)))
        &&& altura_real(Some(Box::new(n))) - 1 <= altura_real(Some(Box::new(r)))
    }
    &&& -1 <= factor(n) <= 1 ==> r == n
}

/// Re-balancear un nodo con alturas correctas conserva su recorrido en orden y las alturas
/// correctas sin aumentar la altura; en un nodo ordenado conserva orden y contenido; en
/// uno casi AVL da un AVL de la misma altura o una menos.
pub proof fn lema_reequilibrado(n: Nodo)
    requires
        alturas_correctas(Some(Box::new(n))),
    ensures
        garantias_reequilibrado(n, reequilibrado(n)),
{
    let t = Some(Box::new(n));
    lema_altura_guardada(n.izquierdo);
    lema_altura_guardada(n.derecho);
    let b = altura_guardada(n.izquierdo) - altura_guardada(n.derecho);
    if b > 1 {
        lema_cargado_a_la_izquierda(n);
    } else if b < -1 {
        lema_cargado_a_la_derecha(n);
    }
}

proof fn lema_cargado_a_la_izquierda(n: Nodo)
    requires
        alturas_correctas(Some(Box::new(n))),
        altura_guardada(n.izquierdo) - altura_guardada(n.derecho) > 1,
    ensures
        garantias_reequilibrado(n, reequilibrado(n)),
{
    let t = Some(Box::new(n));
    lema_altura_guardada(n.izquierdo);
    lema_altura_guardada(n.derecho);
    assert(n.izquierdo is Some);
    assert(alturas_correctas(n.izquierdo));
    let l = n.izquierdo->0;
    lema_altura_guardada(l.izquierdo);
    lema_altura_guardada(l.derecho);
    let hl = altura_real(n.izquierdo);
    let hd = altura_real(n.derecho);
    assert(altura_real(t) == hl + 1);
    let avl = equilibrado(n.izquierdo) && equilibrado(n.derecho) && factor(n) <= 2;
    if altura_guardada(l.izquierdo) - altura_guardada(l.derecho) < 0 {
        assert(l.derecho is Some);
        assert(alturas_correctas(l.derecho));
        let y = l.derecho->0;
        lema_altura_guardada(y.izquierdo);
        lema_altura_guardada(y.derecho);
        lema_rotacion_izquierda(*l);
        let lp = rotacion_izquierda(*l);
        let np = Nodo { izquierdo: Some(Box::new(lp)), ..n };
        assert(en_orden(Some(Box::new(lp))) == en_orden(n.izquierdo));
        assert(en_orden(Some(Box::new(np))) =~= en_orden(t));
        if ordenado(t) {
            assert(ordenado(n.izquierdo));
            assert(ordenado(Some(Box::new(np))));
            assert(contenido(Some(Box::new(np))) == contenido(t));
        }
        lema_rotacion_derecha(np);
        if avl {
            assert(equilibrado(n.izquierdo));
            assert(equilibrado(l.derecho));
            assert(altura_real(Some(y)) == hd + 1);
            assert(altura_real(l.izquierdo) == hd);
            assert(hd - 1 <= altura_real(y.izquierdo) <= hd);
            assert(hd - 1 <= altura_real(y.derecho) <= hd);
            assert(altura_real(lp.izquierdo) == hd + 1);
            assert(equilibrado(lp.izquierdo));
            assert(equilibrado(lp.derecho));
            let r = rotacion_derecha(np);
            assert(equilibrado(Some(Box::new(r))));
        }
    } else {
        lema_rotacion_derecha(n);
        if avl {
            assert(equilibrado(n.izquierdo));
            assert(equilibrado(l.izquierdo));
            assert(equilibrado(l.derecho));
            assert(altura_real(l.izquierdo) == hd + 1);
            assert(hd <= altura_real(l.derecho) <= hd + 1);
            let r = rotacion_derecha(n);
            assert(equilibrado(Some(Box::new(r))));
        }
    }
}

proof fn lema_cargado_a_la_derecha(n: Nodo)
    requires
        alturas_correctas(Some(Box::new(n))),
        altura_guardada(n.izquierdo) - altura_guardada(n.derecho) < -1,
    ensures
        garantias_reequilibrado(n, reequilibrado(n)),
{
    let t = Some(Box::new(n));
    lema_altura_guardada(n.izquierdo);
    lema_altura_guardada(n.derecho);
    assert(n.derecho is Some);
    assert(alturas_correctas(n.derecho));
    let d = n.derecho->0;
    lema_altura_guardada(d.izquierdo);
    lema_altura_guardada(d.derecho);
    let hd = altura_real(n.derecho);
    let hi = altura_real(n.izquierdo);
    assert(altura_real(t) == hd + 1);
    let avl = equilibrado(n.izquierdo) && equilibrado(n.derecho) && factor(n) >= -2;
    if altura_guardada(d.izquierdo) - altura_guardada(d.derecho) > 0 {
        assert(d.izquierdo is Some);
        assert(alturas_correctas(d.izquierdo));
        let x = d.izquierdo->0;
        lema_altura_guardada(x.izquierdo);
        lema_altura_guardada(x.derecho);
        lema_rotacion_derecha(*d);
        let dp = rotacion_derecha(*d);
        let np = Nodo { derecho: Some(Box::new(dp)), ..n };
        assert(en_orden(Some(Box::new(dp))) == en_orden(n.derecho));
        assert(en_orden(Some(Box::new(np))) =~= en_orden(t));
        if ordenado(t) {
            assert(ordenado(n.derecho));
            assert(ordenado(Some(Box::new(np))));
            assert(contenido(Some(Box::new(np))) == contenido(t));
        }
        lema_rotacion_izquierda(np);
        if avl {
            assert(equilibrado(n.derecho));
            assert(equilibrado(d.izquierdo));
            assert(altura_real(Some(x)) == hi + 1);
            assert(altura_real(d.derecho) == hi);
            assert(hi - 1 <= altura_real(x.izquierdo) <= hi);
            assert(hi - 1 <= altura_real(x.derecho) <= hi);
            assert(altura_real(dp.derecho) == hi + 1);
            assert(equilibrado(dp.derecho));
            assert(equilibrado(dp.izquierdo));
            let r = rotacion_izquierda(np);
            assert(equilibrado(Some(Box::new(r))));
        }
    } else {
        lema_rotacion_izquierda(n);
        if avl {
            assert(equilibrado(n.derecho));
            assert(equilibrado(d.izquierdo));
            assert(equilibrado(d.derecho));
            assert(altura_real(d.derecho) == hi + 1);
            assert(hi <= altura_real(d.izquierdo) <= hi + 1);
            let r = rotacion_izquierda(n);
            assert(equilibrado(Some(Box::new(r))));
        }
    }
}

/// Aplica las rotaciones AVL que necesita `nodo`, cuya altura ya está actualizada (ver
/// `reequilibrado`).
///
/// Con balance mayor que 1 rota a la derecha, antes a la izquierda el hijo izquierdo si su
/// balance es negativo; con balance menor que -1, lo simétrico; un nodo con balance entre
/// -1 y 1 se devuelve tal cual. Para rotar, las alturas deben ser correctas; entonces el
/// resultado conserva el recorrido en orden y las alturas correctas sin aumentar la altura,
/// y sobre un nodo casi AVL da un AVL de la misma altura o una menos.
pub fn balancear(nodo: Box<Nodo>) -> (r: Box<Nodo>)
    requires
        i32::MIN <= altura_guardada(nodo.izquierdo) - altura_guardada(nodo.derecho) <= i32::MAX,
        !(-1 <= altura_guardada(nodo.izquierdo) - altura_guardada(nodo.derecho) <= 1)
            ==> alturas_correctas(Some(nodo)),
    ensures
        *r == reequilibrado(*nodo),
        alturas_correctas(Some(nodo)) ==> garantias_reequilibrado(*nodo, *r),
{
    let mut nodo = nodo;
    let ghost n0 = *nodo;
    proof {
        if alturas_correctas(Some(nodo)) {
            lema_reequilibrado(*nodo);
        }
    }
    let balance = obtener_balance(&nodo);

    if balance > 1 {
        proof {
            lema_altura_guardada(nodo.izquierdo);
            lema_altura_guardada(nodo.derecho);
            assert(nodo.izquierdo is Some);
            assert(alturas_correctas(nodo.izquierdo));
            lema_altura_guardada(nodo.izquierdo->0.izquierdo);
            lema_altura_guardada(nodo.izquierdo->0.derecho);
        }
        if obtener_balance(nodo.izquierdo.as_ref().unwrap()) < 0 {
            let hijo_izq = nodo.izquierdo.take().unwrap();
            proof {
                assert(hijo_izq.derecho is Some);
                assert(alturas_correctas(hijo_izq.derecho));
                lema_altura_guardada(hijo_izq.derecho->0.izquierdo);
                lema_altura_guardada(hijo_izq.derecho->0.derecho);
                lema_rotacion_izquierda(*hijo_izq);
            }
            nodo.izquierdo = Some(rotar_izquierda(hijo_izq));
            proof {
                let x = nodo.izquierdo->0;
                lema_altura_guardada(x.izquierdo);
                lema_altura_guardada(x.derecho);
                assert(*nodo == Nodo { izquierdo: Some(Box::new(rotacion_izquierda(*n0.izquierdo->0))), ..n0 });
            }
        }
        return rotar_derecha(nodo);
    }

    if balance < -1 {
        proof {
            lema_altura_guardada(nodo.izquierdo);
            lema_altura_guardada(nodo.derecho);
            assert(nodo.derecho is Some);
            assert(alturas_correctas(nodo.derecho));
            lema_altura_guardada(nodo.derecho->0.izquierdo);
            lema_altura_guardada(nodo.derecho->0.derecho);
        }
        if obtener_balance(nodo.derecho.as_ref().unwrap()) > 0 {
            let hijo_der = nodo.derecho.take().unwrap();
            proof {
                assert(hijo_der.izquierdo is Some);
                assert(alturas_correctas(hijo_der.izquierdo));
                lema_altura_guardada(hijo_der.izquierdo->0.izquierdo);
                lema_altura_guardada(hijo_der.izquierdo->0.derecho);
                lema_rotacion_derecha(*hijo_der);
            }
            nodo.derecho = Some(rotar_derecha(hijo_der));
            proof {
                let y = nodo.derecho->0;
                lema_altura_guardada(y.izquierdo);
                lema_altura_guardada(y.derecho);
                assert(*nodo == Nodo { derecho: Some(Box::new(rotacion_derecha(*n0.derecho->0))), ..n0 });
            }
        }
        return rotar_izquierda(nodo);
    }

    nodo
}

} // verus!
