//! Rotaciones simples a la derecha y a la izquierda.
use vstd::prelude::*;
use crate::modelo::{
    Nodo, altura_guardada, altura_real, alturas_correctas, contenido, en_orden, equilibrado, mayor,
    ordenado, lema_altura_guardada,
};
use crate::altura::actualizar_altura;

verus! {

/// El resultado de rotar a la derecha el nodo `y`, cuyo hijo izquierdo `x` sube:
///
/// ```text
///       y                x
///      / \              / \
///     x   T3    →     T1   y
///    / \                  / \
///   T1  T2              T2  T3
/// ```
///
/// Las alturas de `y` y de `x` se recalculan, en ese orden, a partir de las guardadas.
pub open spec fn rotacion_derecha(y: Nodo) -> Nodo
    recommends
        y.izquierdo is Some,
{
    let x = y.izquierdo->0;
    let nuevo_y = Nodo {
        libro: y.libro,
        izquierdo: x.derecho,
        derecho: y.derecho,
        altura: (1 + mayor(altura_guardada(x.derecho), altura_guardada(y.derecho))) as i32,
    };
    Nodo {
        libro: x.libro,
        izquierdo: x.izquierdo,
        derecho: Some(Box::new(nuevo_y)),
        altura: (1 + mayor(altura_guardada(x.izquierdo), nuevo_y.altura as int)) as i32,
    }
}

/// El resultado de rotar a la izquierda el nodo `x`, cuyo hijo derecho `y` sube:
///
/// ```text
///     x                  y
///    / \                / \
///   T1  y      →      x   T3
///      / \           / \
///     T2  T3        T1  T2
/// ```
pub open spec fn rotacion_izquierda(x: Nodo) -> Nodo
    recommends
        x.derecho is Some,
{
    let y = x.derecho->0;
    let nuevo_x = Nodo {
        libro: x.libro,
        izquierdo: x.izquierdo,
        derecho: y.izquierdo,
        altura: (1 + mayor(altura_guardada(x.izquierdo), altura_guardada(y.izquierdo))) as i32,
    };
    Nodo {
        libro: y.libro,
        izquierdo: Some(Box::new(nuevo_x)),
        derecho: y.derecho,
        altura: (1 + mayor(nuevo_x.altura as int, altura_guardada(y.derecho))) as i32,
    }
}

/// Rotación simple a la derecha sobre `y`; devuelve la nueva raíz del subárbol.
pub fn rotar_derecha(y: Box<Nodo>) -> (r: Box<Nodo>)
    requires
        y.izquierdo is Some,
        altura_guardada(y.izquierdo->0.izquierdo) < i32::MAX,
        altura_guardada(y.izquierdo->0.derecho) < i32::MAX - 1,
        altura_guardada(y.derecho) < i32::MAX - 1,
    ensures
        *r == rotacion_derecha(*y),
{
    let mut y = y;
    let mut x = y.izquierdo.take().expect("Hijo izquierdo ausente");
    y.izquierdo = x.derecho.take();
    actualizar_altura(&mut *y);
    x.derecho = Some(y);
    actualizar_altura(&mut *x);
    x
}

/// Rotación simple a la izquierda sobre `x`; devuelve la nueva raíz del subárbol.
pub fn rotar_izquierda(x: Box<Nodo>) -> (r: Box<Nodo>)
    requires
        x.derecho is Some,
        altura_guardada(x.izquierdo) < i32::MAX - 1,
        altura_guardada(x.derecho->0.izquierdo) < i32::MAX - 1,
        altura_guardada(x.derecho->0.derecho) < i32::MAX,
    ensures
        *r == rotacion_izquierda(*x),
{
    let mut x = x;
    let mut y = x.derecho.take().expect("Hijo derecho ausente");
    x.derecho = y.izquierdo.take();
    actualizar_altura(&mut *x);
    y.izquierdo = Some(x);
    actualizar_altura(&mut *y);
    y
}

/// Una rotación a la derecha conserva el recorrido en orden, deja correctas las alturas si
/// lo eran en los tres subárboles que mueve, y deja el resultado equilibrado cuando esos
/// subárboles lo están y las alturas de los dos nuevos pares de hermanos difieren a lo sumo
/// en uno. Sobre un nodo ordenado, el resultado está ordenado y tiene el mismo contenido.
pub proof fn lema_rotacion_derecha(y: Nodo)
    requires
        y.izquierdo is Some,
        alturas_correctas(y.izquierdo->0.izquierdo),
        alturas_correctas(y.izquierdo->0.derecho),
        alturas_correctas(y.derecho),
        altura_real(y.izquierdo->0.izquierdo) < i32::MAX,
        altura_real(y.izquierdo->0.derecho) < i32::MAX - 1,
        altura_real(y.derecho) < i32::MAX - 1,
    ensures
        ({
            let r = rotacion_derecha(y);
            let x = y.izquierdo->0;
            &&& en_orden(Some(Box::new(r))) == en_orden(Some(Box::new(y)))
            &&& alturas_correctas(Some(Box::new(r)))
            &&& r.derecho is Some
            &&& altura_real(r.derecho) == 1 + mayor(
                altura_real(x.derecho) as int,
                altura_real(y.derecho) as int,
            )
            &&& altura_real(Some(Box::new(r))) == 1 + mayor(
                altura_real(x.izquierdo) as int,
                altura_real(r.derecho) as int,
            )
            &&& (equilibrado(x.izquierdo) && equilibrado(x.derecho) && equilibrado(y.derecho)
                && -1 <= altura_real(x.derecho) - altura_real(y.derecho) <= 1
                && -1 <= altura_real(x.izquierdo) - altura_real(r.derecho) <= 1)
                ==> equilibrado(Some(Box::new(r)))
            &&& ordenado(Some(Box::new(y))) ==> {
                &&& ordenado(Some(Box::new(r)))
                &&& contenido(Some(Box::new(r))) == contenido(Some(Box::new(y)))
            }
        }),
{
    let x = y.izquierdo->0;
    let r = rotacion_derecha(y);
    let t1 = contenido(x.izquierdo);
    let t2 = contenido(x.derecho);
    let t3 = contenido(y.derecho);
    assert(y.izquierdo == Some(x));
    let a = en_orden(x.izquierdo);
    let b = en_orden(x.derecho);
    let c = en_orden(y.derecho);
    assert(en_orden(Some(x)) == a.push(x.libro) + b);
    assert(en_orden(Some(Box::new(y))) == en_orden(Some(x)).push(y.libro) + c);
    assert(en_orden(r.derecho) == b.push(y.libro) + c);
    assert(en_orden(Some(Box::new(r))) == a.push(x.libro) + en_orden(r.derecho));
    assert(en_orden(Some(Box::new(r))) =~= en_orden(Some(Box::new(y))));
    if ordenado(Some(Box::new(y))) {
        assert(ordenado(y.izquierdo));
        assert(ordenado(Some(x)));
        assert(contenido(y.izquierdo) == t1.union_prefer_right(t2).insert(x.libro.isbn, x.libro));
        assert(forall|k: u32| t1.contains_key(k) ==> k < x.libro.isbn);
        assert(forall|k: u32| t2.contains_key(k) ==> x.libro.isbn < k);
        assert(forall|k: u32| t1.contains_key(k) ==> contenido(y.izquierdo).contains_key(k));
        assert(forall|k: u32| t2.contains_key(k) ==> contenido(y.izquierdo).contains_key(k));
        assert(contenido(y.izquierdo).contains_key(x.libro.isbn));
        assert(contenido(r.derecho) =~= t2.union_prefer_right(t3).insert(y.libro.isbn, y.libro));
        assert(contenido(Some(Box::new(r))) =~= contenido(Some(Box::new(y))));
        assert(ordenado(r.derecho));
        assert(ordenado(Some(Box::new(r))));
    }
    lema_altura_guardada(x.izquierdo);
    lema_altura_guardada(x.derecho);
    lema_altura_guardada(y.derecho);
    assert(alturas_correctas(r.derecho));
    assert(alturas_correctas(Some(Box::new(r))));
    if equilibrado(x.izquierdo) && equilibrado(x.derecho) && equilibrado(y.derecho)
        && -1 <= altura_real(x.derecho) - altura_real(y.derecho) <= 1
        && -1 <= altura_real(x.izquierdo) - altura_real(r.derecho) <= 1 {
        assert(equilibrado(r.derecho));
        assert(equilibrado(Some(Box::new(r))));
    }
}

/// Una rotación a la izquierda conserva el recorrido en orden, deja correctas las alturas
/// si lo eran en los tres subárboles que mueve, y deja el resultado equilibrado cuando
/// esos subárboles lo están y las alturas de los dos nuevos pares de hermanos difieren a lo
/// sumo en uno. Sobre un nodo ordenado, el resultado está ordenado y tiene el mismo
/// contenido.
pub proof fn lema_rotacion_izquierda(x: Nodo)
    requires
        x.derecho is Some,
        alturas_correctas(x.izquierdo),
        alturas_correctas(x.derecho->0.izquierdo),
        alturas_correctas(x.derecho->0.derecho),
        altura_real(x.izquierdo) < i32::MAX - 1,
        altura_real(x.derecho->0.izquierdo) < i32::MAX - 1,
        altura_real(x.derecho->0.derecho) < i32::MAX,
    ensures
        ({
            let r = rotacion_izquierda(x);
            let y = x.derecho->0;
            &&& en_orden(Some(Box::new(r))) == en_orden(Some(Box::new(x)))
            &&& alturas_correctas(Some(Box::new(r)))
            &&& r.izquierdo is Some
            &&& altura_real(r.izquierdo) == 1 + mayor(
                altura_real(x.izquierdo) as int,
                altura_real(y.izquierdo) as int,
            )
            &&& altura_real(Some(Box::new(r))) == 1 + mayor(
                altura_real(r.izquierdo) as int,
                altura_real(y.derecho) as int,
            )
            &&& (equilibrado(x.izquierdo) && equilibrado(y.izquierdo) && equilibrado(y.derecho)
                && -1 <= altura_real(x.izquierdo) - altura_real(y.izquierdo) <= 1
                && -1 <= altura_real(r.izquierdo) - altura_real(y.derecho) <= 1)
                ==> equilibrado(Some(Box::new(r)))
            &&& ordenado(Some(Box::new(x))) ==> {
                &&& ordenado(Some(Box::new(r)))
                &&& contenido(Some(Box::new(r))) == contenido(Some(Box::new(x)))
            }
        }),
{
    let y = x.derecho->0;
    let r = rotacion_izquierda(x);
    let t1 = contenido(x.izquierdo);
    let t2 = contenido(y.izquierdo);
    let t3 = contenido(y.derecho);
    assert(x.derecho == Some(y));
    let a = en_orden(x.izquierdo);
    let b = en_orden(y.izquierdo);
    let c = en_orden(y.derecho);
    assert(en_orden(Some(y)) == b.push(y.libro) + c);
    assert(en_orden(Some(Box::new(x))) == a.push(x.libro) + en_orden(Some(y)));
    assert(en_orden(r.izquierdo) == a.push(x.libro) + b);
    assert(en_orden(Some(Box::new(r))) == en_orden(r.izquierdo).push(y.libro) + c);
    assert(en_orden(Some(Box::new(r))) =~= en_orden(Some(Box::new(x))));
    if ordenado(Some(Box::new(x))) {
        assert(ordenado(x.derecho));
        assert(ordenado(Some(y)));
        assert(contenido(x.derecho) == t2.union_prefer_right(t3).insert(y.libro.isbn, y.libro));
        assert(forall|k: u32| t2.contains_key(k) ==> k < y.libro.isbn);
        assert(forall|k: u32| t3.contains_key(k) ==> y.libro.isbn < k);
        assert(forall|k: u32| t2.contains_key(k) ==> contenido(x.derecho).contains_key(k));
        assert(forall|k: u32| t3.contains_key(k) ==> contenido(x.derecho).contains_key(k));
        assert(contenido(x.derecho).contains_key(y.libro.isbn));
        assert(contenido(r.izquierdo) =~= t1.union_prefer_right(t2).insert(x.libro.isbn, x.libro));
        assert(contenido(Some(Box::new(r))) =~= contenido(Some(Box::new(x))));
        assert(ordenado(r.izquierdo));
        assert(ordenado(Some(Box::new(r))));
    }
    lema_altura_guardada(x.izquierdo);
    lema_altura_guardada(y.izquierdo);
    lema_altura_guardada(y.derecho);
    assert(alturas_correctas(r.izquierdo));
    assert(alturas_correctas(Some(Box::new(r))));
    if equilibrado(x.izquierdo) && equilibrado(y.izquierdo) && equilibrado(y.derecho)
        && -1 <= altura_real(x.izquierdo) - altura_real(y.izquierdo) <= 1
        && -1 <= altura_real(r.izquierdo) - altura_real(y.derecho) <= 1 {
        assert(equilibrado(r.izquierdo));
        assert(equilibrado(Some(Box::new(r))));
    }
}

} // verus!
